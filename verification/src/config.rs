//! Immutable pool configuration and its validity conditions.

use vstd::prelude::*;
use crate::errors::Error;

verus! {

/// Which reward-accrual strategy the pool runs.
#[derive(Clone, Copy, Debug, PartialEq, Eq, Structural)]
pub enum RewardPolicy {
    /// Global reward-rate / reward-per-token index, refreshed lazily on every
    /// mutating call; rewards accrue continuously and are claimable any time.
    ContinuousIndex,
    /// One-shot funded prize; the APR is interpolated over pool utilization
    /// at stake time and the reward is paid once, at maturity.
    SnapshotAprByUtilization,
    /// One-shot funded prize; the APR is interpolated over the time elapsed
    /// within the lock period at stake time.
    SnapshotAprByElapsedTime,
}

/// Pool parameters, immutable once the pool is configured.
#[derive(Clone, Copy, Debug, PartialEq, Eq, Structural)]
pub struct PoolConfig {
    /// Identifier of the staked token; the host shell resolves it to the
    /// actual token contract.
    pub token_id: u64,
    /// Account that configured the pool; owner-only operations compare
    /// against it.
    pub owner: u64,
    /// Selected reward-accrual strategy.
    pub policy: RewardPolicy,
    /// Smallest amount a single stake call may add.
    pub min_stake: u64,
    /// Largest total stake one account may hold.
    pub max_stake: u64,
    /// Largest total stake the pool may hold over all accounts.
    pub max_capacity: u64,
    /// Delay after the deposit window closes before withdrawal is allowed.
    pub lock_period: u64,
    /// First instant at which stakes are accepted.
    pub deposit_start_time: u64,
    /// Last instant at which stakes are accepted.
    pub deposit_end_time: u64,
    /// Fixed APR in percent; zero selects the dynamic APR.
    pub fixed_apr: u64,
    /// Lower bound of the dynamic APR in percent.
    pub min_apr: u64,
    /// Upper bound of the dynamic APR in percent.
    pub max_apr: u64,
    /// Length of one reward cycle; continuous model only.
    pub duration: u64,
    /// Token decimals; the continuous index is scaled by `10^decimals`.
    pub decimals: u8,
}

impl PoolConfig {
    /// True for both snapshot-APR policies.
    pub open spec fn is_snapshot(self) -> bool {
        self.policy !is ContinuousIndex
    }

    /// Largest APR (in percent) the snapshot strategy can ever apply.
    pub open spec fn apr_cap(self) -> int {
        if self.fixed_apr > self.max_apr {
            self.fixed_apr as int
        } else {
            self.max_apr as int
        }
    }

    /// Instant from which withdrawal is allowed.
    pub open spec fn lock_expiry(self) -> int {
        self.deposit_end_time + self.lock_period
    }

    /// Validity of a configuration.  Constructors establish it and every
    /// operation preserves it; the arithmetic bounds keep all reward
    /// computations inside machine integers.
    pub open spec fn wf(self) -> bool {
        &&& self.deposit_start_time <= self.deposit_end_time
        &&& self.min_stake <= self.max_stake
        &&& self.min_apr <= self.max_apr
        &&& self.deposit_end_time + self.lock_period <= u64::MAX
        &&& self.is_snapshot() ==> {
            &&& self.max_capacity >= 1
            &&& self.max_capacity * self.apr_cap() <= 100 * (u64::MAX as int)
        }
        &&& self.policy is SnapshotAprByElapsedTime ==> self.lock_period >= 1
        &&& self.policy is ContinuousIndex ==> self.duration >= 1 && self.decimals <= 18
    }

    /// Decides `wf` executably, so that a deployment can validate its
    /// parameters at load time.
    pub fn check(&self) -> (r: bool)
        ensures
            r == self.wf(),
    {
        let apr_cap: u64 = if self.fixed_apr > self.max_apr {
            self.fixed_apr
        } else {
            self.max_apr
        };
        let snapshot = !matches!(self.policy, RewardPolicy::ContinuousIndex);
        let elapsed = matches!(self.policy, RewardPolicy::SnapshotAprByElapsedTime);
        let continuous = matches!(self.policy, RewardPolicy::ContinuousIndex);
        proof {
            vstd::arithmetic::mul::lemma_mul_upper_bound(
                self.max_capacity as int,
                u64::MAX as int,
                apr_cap as int,
                u64::MAX as int,
            );
        }
        let cap_times_apr: u128 = (self.max_capacity as u128) * (apr_cap as u128);
        self.deposit_start_time <= self.deposit_end_time
            && self.min_stake <= self.max_stake
            && self.min_apr <= self.max_apr
            && self.lock_period <= u64::MAX - self.deposit_end_time
            && (!snapshot
                || (self.max_capacity >= 1
                    && cap_times_apr <= 100u128 * (u64::MAX as u128)))
            && (!elapsed || self.lock_period >= 1)
            && (!continuous || (self.duration >= 1 && self.decimals <= 18))
    }

    /// Validates the parameters and returns the configuration, rejecting a
    /// malformed schema as a fatal deployment error.
    pub fn configure(self) -> (r: Result<PoolConfig, Error>)
        ensures
            self.wf() ==> r == Ok::<PoolConfig, Error>(self),
            !self.wf() ==> r == Err::<PoolConfig, Error>(Error::FatalError),
    {
        if self.check() {
            Ok(self)
        } else {
            Err(Error::FatalError)
        }
    }
}

} // verus!
