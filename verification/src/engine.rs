//! The transition engine: every entry point is a pure function from
//! configuration, pool state, the caller's ledger record and the event's
//! plain values to either an error (with nothing changed) or the new state
//! plus the token movement the host shell must perform.  The host resolves
//! the caller, loads exactly these pieces, and persists them back only when
//! the transition succeeds.

use vstd::prelude::*;
use crate::admission;
use crate::admission::{spec_stake_check, spec_unstake_check};
use crate::apr::{calculate_dynamic_apr, calculate_elapsed_apr, spec_interpolated_apr};
use crate::config::{PoolConfig, RewardPolicy};
use crate::continuous;
use crate::continuous::{
    accrual_ok, record_ok, spec_accrue, spec_blended_rate, spec_earned, spec_notify_accrual,
    spec_update,
};
use crate::errors::Error;
use crate::snapshot;
use crate::snapshot::{spec_notify_apr, spec_prize, spec_snapshot_reward};
use crate::state::{AccrualState, PoolState, SnapshotAccrual, StakeRecord, TokenMovement};

verus! {

/// Validity of the global state: totals within capacity, the reserve
/// covered by the funded total, and the strategy state consistent with the
/// policy — for the continuous strategy the accrual invariant, for the
/// snapshot strategy a liquidity mirror, a capped APR, and an all-zero
/// pool before funding.
pub open spec fn state_ok(cfg: PoolConfig, st: PoolState) -> bool {
    &&& st.matches_policy(cfg)
    &&& st.total_staked <= cfg.max_capacity
    &&& st.total_reward_reserve <= st.total_funded
    &&& match st.accrual {
        AccrualState::Continuous(ca) => accrual_ok(cfg, ca, st.total_funded),
        AccrualState::Snapshot(sa) => {
            &&& sa.liquidity == st.total_staked
            &&& sa.current_apr <= cfg.apr_cap()
            &&& !st.notified ==> st.total_staked == 0 && st.total_funded == 0
                && st.total_reward_reserve == 0
        },
    }
}

/// Validity of one ledger record against the global state: its stake is
/// part of the total and inside the per-account bounds, its claims leave
/// the reserve covered, and the strategy-specific fields are consistent.
pub open spec fn rec_ok(cfg: PoolConfig, st: PoolState, rec: StakeRecord) -> bool {
    &&& rec.staked_amount <= st.total_staked
    &&& rec.staked_amount != 0 ==> cfg.min_stake <= rec.staked_amount <= cfg.max_stake
    &&& rec.claimed_amount + st.total_reward_reserve <= st.total_funded
    &&& match st.accrual {
        AccrualState::Continuous(ca) => record_ok(cfg, ca, st.total_funded, rec),
        AccrualState::Snapshot(_) => {
            &&& rec.reward_per_token_paid == 0
            &&& rec.pending_reward == 0
            &&& !st.notified ==> rec.staked_amount == 0 && rec.claimed_amount == 0
        },
    }
}

/// The host clock never runs backwards past the last index refresh.
pub open spec fn clock_ok(st: PoolState, now: u64) -> bool {
    match st.accrual {
        AccrualState::Continuous(ca) => now >= ca.last_update_time,
        AccrualState::Snapshot(_) => true,
    }
}

/// APR snapshotted by a stake that raises the pool total to `new_total`
/// at `now`: the funding-time APR when fixed, else interpolated over
/// utilization or over elapsed lock time, by policy.
pub open spec fn spec_stake_apr(
    cfg: PoolConfig,
    sa: SnapshotAccrual,
    new_total: u64,
    now: u64,
) -> int {
    if cfg.fixed_apr > 0 {
        sa.current_apr as int
    } else if cfg.policy is SnapshotAprByUtilization {
        spec_interpolated_apr(new_total as int, cfg.max_capacity as int, cfg.min_apr as int, cfg.max_apr as int)
    } else {
        spec_interpolated_apr(
            now - cfg.deposit_start_time,
            cfg.lock_period as int,
            cfg.min_apr as int,
            cfg.max_apr as int,
        )
    }
}

/// Stakes `amount` for the caller: the admission checks first, then —
/// on success only — the accrual state refreshed, the caller's record and
/// the pool total raised, and a pull of `amount` requested from the host.
pub fn stake(
    cfg: &PoolConfig,
    st: &mut PoolState,
    rec: &mut StakeRecord,
    now: u64,
    amount: u64,
    caller_balance: u64,
) -> (r: Result<TokenMovement, Error>)
    requires
        cfg.wf(),
        state_ok(*cfg, *old(st)),
        rec_ok(*cfg, *old(st), *old(rec)),
        clock_ok(*old(st), now),
    ensures
        state_ok(*cfg, *final(st)),
        rec_ok(*cfg, *final(st), *final(rec)),
        ({
            let check = spec_stake_check(
                *cfg,
                old(st).notified,
                old(st).total_staked,
                old(rec).staked_amount,
                now,
                amount,
                caller_balance,
            );
            match check {
                Err(e) => r == Err::<TokenMovement, Error>(e) && *final(st) == *old(st)
                    && *final(rec) == *old(rec),
                Ok(_) => {
                    &&& r == Ok::<TokenMovement, Error>(TokenMovement::PullFromCaller { amount })
                    &&& final(st).total_staked == old(st).total_staked + amount
                    &&& final(rec).staked_amount == old(rec).staked_amount + amount
                    &&& final(rec).account == old(rec).account
                    &&& final(rec).claimed_amount == old(rec).claimed_amount
                    &&& final(st).total_reward_reserve == old(st).total_reward_reserve
                    &&& final(st).total_funded == old(st).total_funded
                    &&& final(st).notified == old(st).notified
                    &&& (cfg.policy is ContinuousIndex ==> {
                        let ca2 = spec_update(
                            *cfg,
                            old(st).accrual->Continuous_0,
                            old(st).total_staked,
                            now,
                        );
                        &&& final(st).accrual == AccrualState::Continuous(ca2)
                        &&& final(rec).reward_per_token_paid == ca2.reward_per_token_stored
                        &&& final(rec).pending_reward == spec_earned(*cfg, ca2, *old(rec))
                    })
                    &&& (cfg.is_snapshot() ==> {
                        &&& final(st).accrual == AccrualState::Snapshot(
                            SnapshotAccrual {
                                current_apr: spec_stake_apr(
                                    *cfg,
                                    old(st).accrual->Snapshot_0,
                                    (old(st).total_staked + amount) as u64,
                                    now,
                                ) as u64,
                                liquidity: (old(st).total_staked + amount) as u64,
                            },
                        )
                        &&& final(rec).reward_per_token_paid == old(rec).reward_per_token_paid
                        &&& final(rec).pending_reward == old(rec).pending_reward
                    })
                },
            }
        }),
{
    let check = admission::check_stake(
        cfg,
        st.notified,
        st.total_staked,
        rec.staked_amount,
        now,
        amount,
        caller_balance,
    );
    match check {
        Err(e) => Err(e),
        Ok(_) => {
            match st.accrual {
                AccrualState::Continuous(ca_in) => {
                    let mut ca = ca_in;
                    proof {
                        continuous::lemma_ok_weaken(*cfg, ca, st.total_funded, u64::MAX);
                        continuous::lemma_update_preserves_accrual_ok(
                            *cfg,
                            ca,
                            st.total_staked,
                            st.total_funded,
                            now,
                        );
                        continuous::lemma_update_preserves_record_ok(
                            *cfg,
                            ca,
                            st.total_staked,
                            st.total_funded,
                            now,
                            *rec,
                        );
                    }
                    continuous::update_reward(cfg, &mut ca, st.total_staked, now);
                    proof {
                        continuous::lemma_record_ok_weaken(
                            *cfg,
                            ca,
                            st.total_funded,
                            u64::MAX,
                            *rec,
                        );
                        continuous::lemma_accrue_preserves_record_ok(
                            *cfg,
                            ca,
                            st.total_funded,
                            *rec,
                        );
                    }
                    continuous::accrue_record(cfg, &ca, rec);
                    rec.staked_amount = rec.staked_amount + amount;
                    st.total_staked = st.total_staked + amount;
                    st.accrual = AccrualState::Continuous(ca);
                    proof {
                        assert(rec.reward_per_token_paid == ca.reward_per_token_stored);
                        assert(ca.reward_per_token_stored - rec.reward_per_token_paid == 0);
                        assert(rec.staked_amount * (ca.reward_per_token_stored
                            - rec.reward_per_token_paid) == 0);
                    }
                    Ok(TokenMovement::PullFromCaller { amount })
                },
                AccrualState::Snapshot(sa) => {
                    let new_total = st.total_staked + amount;
                    let apr: u64 = if cfg.fixed_apr > 0 {
                        sa.current_apr
                    } else if matches!(cfg.policy, RewardPolicy::SnapshotAprByUtilization) {
                        calculate_dynamic_apr(new_total, cfg.max_capacity, cfg.min_apr, cfg.max_apr)
                    } else {
                        calculate_elapsed_apr(
                            now,
                            cfg.deposit_start_time,
                            cfg.lock_period,
                            cfg.min_apr,
                            cfg.max_apr,
                        )
                    };
                    rec.staked_amount = rec.staked_amount + amount;
                    st.total_staked = new_total;
                    st.accrual = AccrualState::Snapshot(
                        SnapshotAccrual { current_apr: apr, liquidity: new_total },
                    );
                    Ok(TokenMovement::PullFromCaller { amount })
                },
            }
        },
    }
}

/// Withdraws principal after lock expiry: the admission checks
/// first; in the continuous model the accrual is refreshed and the reward
/// owed is paid out alongside the principal (rejected untouched if the
/// reserve cannot cover it); the record and pool totals shrink and a
/// payout is requested from the host.
pub fn unstake(
    cfg: &PoolConfig,
    st: &mut PoolState,
    rec: &mut StakeRecord,
    now: u64,
    request: Option<u64>,
) -> (r: Result<TokenMovement, Error>)
    requires
        cfg.wf(),
        state_ok(*cfg, *old(st)),
        rec_ok(*cfg, *old(st), *old(rec)),
        clock_ok(*old(st), now),
    ensures
        state_ok(*cfg, *final(st)),
        rec_ok(*cfg, *final(st), *final(rec)),
        ({
            let check = spec_unstake_check(*cfg, now, old(rec).staked_amount, request);
            match check {
                Err(e) => r == Err::<TokenMovement, Error>(e) && *final(st) == *old(st)
                    && *final(rec) == *old(rec),
                Ok(a) => {
                    if cfg.policy is ContinuousIndex {
                        let ca2 = spec_update(
                            *cfg,
                            old(st).accrual->Continuous_0,
                            old(st).total_staked,
                            now,
                        );
                        let owed = spec_earned(*cfg, ca2, *old(rec));
                        if owed > old(st).total_reward_reserve {
                            r == Err::<TokenMovement, Error>(Error::InsufficientBalance)
                                && *final(st) == *old(st) && *final(rec) == *old(rec)
                        } else {
                            &&& r == Ok::<TokenMovement, Error>(
                                TokenMovement::PayToCaller { principal: a, reward: owed as u64 },
                            )
                            &&& *final(st) == (PoolState {
                                total_staked: (old(st).total_staked - a) as u64,
                                total_reward_reserve: (old(st).total_reward_reserve - owed) as u64,
                                accrual: AccrualState::Continuous(ca2),
                                ..*old(st)
                            })
                            &&& *final(rec) == (StakeRecord {
                                staked_amount: (old(rec).staked_amount - a) as u64,
                                reward_per_token_paid: ca2.reward_per_token_stored,
                                pending_reward: 0,
                                claimed_amount: (old(rec).claimed_amount + owed) as u64,
                                ..*old(rec)
                            })
                        }
                    } else {
                        &&& r == Ok::<TokenMovement, Error>(
                            TokenMovement::PayToCaller { principal: a, reward: 0 },
                        )
                        &&& *final(st) == (PoolState {
                            total_staked: (old(st).total_staked - a) as u64,
                            accrual: AccrualState::Snapshot(
                                SnapshotAccrual {
                                    current_apr: old(st).accrual->Snapshot_0.current_apr,
                                    liquidity: (old(st).total_staked - a) as u64,
                                },
                            ),
                            ..*old(st)
                        })
                        &&& *final(rec) == (StakeRecord {
                            staked_amount: (old(rec).staked_amount - a) as u64,
                            ..*old(rec)
                        })
                    }
                },
            }
        }),
{
    let check = admission::check_unstake(cfg, now, rec.staked_amount, request);
    match check {
        Err(e) => Err(e),
        Ok(a) => {
            match st.accrual {
                AccrualState::Continuous(ca_in) => {
                    let mut ca = ca_in;
                    proof {
                        continuous::lemma_ok_weaken(*cfg, ca, st.total_funded, u64::MAX);
                        continuous::lemma_update_preserves_accrual_ok(
                            *cfg,
                            ca,
                            st.total_staked,
                            st.total_funded,
                            now,
                        );
                        continuous::lemma_update_preserves_record_ok(
                            *cfg,
                            ca,
                            st.total_staked,
                            st.total_funded,
                            now,
                            *rec,
                        );
                    }
                    continuous::update_reward(cfg, &mut ca, st.total_staked, now);
                    proof {
                        continuous::lemma_record_ok_weaken(
                            *cfg,
                            ca,
                            st.total_funded,
                            u64::MAX,
                            *rec,
                        );
                        continuous::lemma_accrue_preserves_record_ok(
                            *cfg,
                            ca,
                            st.total_funded,
                            *rec,
                        );
                    }
                    let mut staged = *rec;
                    continuous::accrue_record(cfg, &ca, &mut staged);
                    let owed = staged.pending_reward;
                    if owed > st.total_reward_reserve {
                        Err(Error::InsufficientBalance)
                    } else {
                        staged.pending_reward = 0;
                        staged.claimed_amount = staged.claimed_amount + owed;
                        staged.staked_amount = staged.staked_amount - a;
                        *rec = staged;
                        st.total_staked = st.total_staked - a;
                        st.total_reward_reserve = st.total_reward_reserve - owed;
                        st.accrual = AccrualState::Continuous(ca);
                        proof {
                            assert(rec.reward_per_token_paid == ca.reward_per_token_stored);
                            assert(ca.reward_per_token_stored - rec.reward_per_token_paid == 0);
                            assert(rec.staked_amount * (ca.reward_per_token_stored
                                - rec.reward_per_token_paid) == 0);
                        }
                        Ok(TokenMovement::PayToCaller { principal: a, reward: owed })
                    }
                },
                AccrualState::Snapshot(sa) => {
                    let new_total = st.total_staked - a;
                    rec.staked_amount = rec.staked_amount - a;
                    st.total_staked = new_total;
                    st.accrual = AccrualState::Snapshot(
                        SnapshotAccrual { current_apr: sa.current_apr, liquidity: new_total },
                    );
                    Ok(TokenMovement::PayToCaller { principal: a, reward: 0 })
                },
            }
        },
    }
}

/// Outcome of the snapshot-model claim checks, in order: funding gate,
/// lock expiry, an existing stake, no earlier payout, and a reserve able
/// to cover the reward.  Returns the reward owed.
pub open spec fn spec_snapshot_claim(
    cfg: PoolConfig,
    st: PoolState,
    rec: StakeRecord,
    now: u64,
) -> Result<u64, Error> {
    let sa = st.accrual->Snapshot_0;
    if !st.notified {
        Err(Error::WaitingNotify)
    } else if now < cfg.lock_expiry() {
        Err(Error::StillLockPeriod)
    } else if rec.staked_amount == 0 {
        Err(Error::StakeAmountIsZero)
    } else if rec.claimed_amount > 0 {
        Err(Error::AlreadyClaimed)
    } else if spec_snapshot_reward(rec.staked_amount, sa.current_apr) > st.total_reward_reserve {
        Err(Error::InsufficientBalance)
    } else {
        Ok(spec_snapshot_reward(rec.staked_amount, sa.current_apr) as u64)
    }
}

/// Pays the caller's reward without touching principal: the accrued share
/// in the continuous model (any time), or the APR share at maturity in
/// the snapshot model, each decremented from the reserve and recorded in
/// the claim history.
pub fn claim(cfg: &PoolConfig, st: &mut PoolState, rec: &mut StakeRecord, now: u64) -> (r: Result<
    TokenMovement,
    Error,
>)
    requires
        cfg.wf(),
        state_ok(*cfg, *old(st)),
        rec_ok(*cfg, *old(st), *old(rec)),
        clock_ok(*old(st), now),
    ensures
        state_ok(*cfg, *final(st)),
        rec_ok(*cfg, *final(st), *final(rec)),
        cfg.policy is ContinuousIndex ==> ({
            let ca2 = spec_update(*cfg, old(st).accrual->Continuous_0, old(st).total_staked, now);
            let owed = spec_earned(*cfg, ca2, *old(rec));
            if owed > old(st).total_reward_reserve {
                r == Err::<TokenMovement, Error>(Error::InsufficientBalance) && *final(st) == *old(
                    st,
                ) && *final(rec) == *old(rec)
            } else {
                &&& r == Ok::<TokenMovement, Error>(
                    TokenMovement::PayToCaller { principal: 0, reward: owed as u64 },
                )
                &&& *final(st) == (PoolState {
                    total_reward_reserve: (old(st).total_reward_reserve - owed) as u64,
                    accrual: AccrualState::Continuous(ca2),
                    ..*old(st)
                })
                &&& *final(rec) == (StakeRecord {
                    reward_per_token_paid: ca2.reward_per_token_stored,
                    pending_reward: 0,
                    claimed_amount: (old(rec).claimed_amount + owed) as u64,
                    ..*old(rec)
                })
            }
        }),
        cfg.is_snapshot() ==> ({
            match spec_snapshot_claim(*cfg, *old(st), *old(rec), now) {
                Err(e) => r == Err::<TokenMovement, Error>(e) && *final(st) == *old(st)
                    && *final(rec) == *old(rec),
                Ok(reward) => {
                    &&& r == Ok::<TokenMovement, Error>(
                        TokenMovement::PayToCaller { principal: 0, reward },
                    )
                    &&& *final(st) == (PoolState {
                        total_reward_reserve: (old(st).total_reward_reserve - reward) as u64,
                        ..*old(st)
                    })
                    &&& *final(rec) == (StakeRecord {
                        claimed_amount: (old(rec).claimed_amount + reward) as u64,
                        ..*old(rec)
                    })
                },
            }
        }),
{
    match st.accrual {
        AccrualState::Continuous(ca_in) => {
            let mut ca = ca_in;
            proof {
                continuous::lemma_ok_weaken(*cfg, ca, st.total_funded, u64::MAX);
                continuous::lemma_update_preserves_accrual_ok(
                    *cfg,
                    ca,
                    st.total_staked,
                    st.total_funded,
                    now,
                );
                continuous::lemma_update_preserves_record_ok(
                    *cfg,
                    ca,
                    st.total_staked,
                    st.total_funded,
                    now,
                    *rec,
                );
            }
            continuous::update_reward(cfg, &mut ca, st.total_staked, now);
            proof {
                continuous::lemma_record_ok_weaken(*cfg, ca, st.total_funded, u64::MAX, *rec);
                continuous::lemma_accrue_preserves_record_ok(*cfg, ca, st.total_funded, *rec);
            }
            let mut staged = *rec;
            continuous::accrue_record(cfg, &ca, &mut staged);
            let owed = staged.pending_reward;
            if owed > st.total_reward_reserve {
                Err(Error::InsufficientBalance)
            } else {
                staged.pending_reward = 0;
                staged.claimed_amount = staged.claimed_amount + owed;
                *rec = staged;
                st.total_reward_reserve = st.total_reward_reserve - owed;
                st.accrual = AccrualState::Continuous(ca);
                proof {
                    assert(rec.reward_per_token_paid == ca.reward_per_token_stored);
                    assert(ca.reward_per_token_stored - rec.reward_per_token_paid == 0);
                    assert(rec.staked_amount * (ca.reward_per_token_stored
                        - rec.reward_per_token_paid) == 0);
                }
                Ok(TokenMovement::PayToCaller { principal: 0, reward: owed })
            }
        },
        AccrualState::Snapshot(sa) => {
            if !st.notified {
                Err(Error::WaitingNotify)
            } else if now < cfg.deposit_end_time + cfg.lock_period {
                Err(Error::StillLockPeriod)
            } else if rec.staked_amount == 0 {
                Err(Error::StakeAmountIsZero)
            } else if rec.claimed_amount > 0 {
                Err(Error::AlreadyClaimed)
            } else {
                let reward = snapshot::compute_snapshot_reward(
                    cfg,
                    rec.staked_amount,
                    sa.current_apr,
                );
                if reward > st.total_reward_reserve {
                    Err(Error::InsufficientBalance)
                } else {
                    rec.claimed_amount = rec.claimed_amount + reward;
                    st.total_reward_reserve = st.total_reward_reserve - reward;
                    Ok(TokenMovement::PayToCaller { principal: 0, reward })
                }
            }
        },
    }
}

/// One-shot funding of a snapshot pool: owner-only and only once;
/// computes the prize from capacity and the funding-time APR, resets the
/// totals, and requests the prize pulled from the owner.
pub fn notify(cfg: &PoolConfig, st: &mut PoolState, caller: u64, caller_balance: u64) -> (r: Result<
    TokenMovement,
    Error,
>)
    requires
        cfg.wf(),
        cfg.is_snapshot(),
        state_ok(*cfg, *old(st)),
    ensures
        state_ok(*cfg, *final(st)),
        ({
            if caller != cfg.owner {
                r == Err::<TokenMovement, Error>(Error::AdminError) && *final(st) == *old(st)
            } else if old(st).notified {
                r == Err::<TokenMovement, Error>(Error::AlreadyNotified) && *final(st) == *old(st)
            } else if caller_balance < spec_prize(*cfg) {
                r == Err::<TokenMovement, Error>(Error::InsufficientBalance) && *final(st) == *old(
                    st,
                )
            } else {
                &&& r == Ok::<TokenMovement, Error>(
                    TokenMovement::PullFromCaller { amount: spec_prize(*cfg) as u64 },
                )
                &&& *final(st) == (PoolState {
                    total_staked: 0,
                    total_reward_reserve: spec_prize(*cfg) as u64,
                    total_funded: (old(st).total_funded + spec_prize(*cfg)) as u64,
                    notified: true,
                    accrual: AccrualState::Snapshot(
                        SnapshotAccrual { current_apr: spec_notify_apr(*cfg) as u64, liquidity: 0 },
                    ),
                })
            }
        }),
{
    proof {
        snapshot::lemma_prize_bounds(*cfg);
    }
    if caller != cfg.owner {
        return Err(Error::AdminError);
    }
    if st.notified {
        return Err(Error::AlreadyNotified);
    }
    let prize = snapshot::compute_prize(cfg);
    if caller_balance < prize {
        return Err(Error::InsufficientBalance);
    }
    let apr0: u64 = if cfg.fixed_apr > 0 {
        cfg.fixed_apr
    } else {
        cfg.max_apr
    };
    st.total_staked = 0;
    st.total_reward_reserve = prize;
    st.total_funded = st.total_funded + prize;
    st.notified = true;
    st.accrual = AccrualState::Snapshot(SnapshotAccrual { current_apr: apr0, liquidity: 0 });
    Ok(TokenMovement::PullFromCaller { amount: prize })
}

/// Funds (or re-funds) a continuous pool with `new_reward`:
/// owner-only; the index is refreshed first, then the rate is blended so
/// that a mid-cycle re-funding forfeits none of the undistributed
/// remainder, and a new cycle of `duration` starts at `now`.
pub fn notify_reward_amount(
    cfg: &PoolConfig,
    st: &mut PoolState,
    caller: u64,
    now: u64,
    new_reward: u64,
    caller_balance: u64,
) -> (r: Result<TokenMovement, Error>)
    requires
        cfg.wf(),
        cfg.policy is ContinuousIndex,
        state_ok(*cfg, *old(st)),
        clock_ok(*old(st), now),
        old(st).total_funded + new_reward <= u64::MAX,
        now + cfg.duration <= u64::MAX,
    ensures
        state_ok(*cfg, *final(st)),
        ({
            let ca2 = spec_update(*cfg, old(st).accrual->Continuous_0, old(st).total_staked, now);
            let rate2 = spec_blended_rate(*cfg, ca2, now, new_reward);
            if caller != cfg.owner {
                r == Err::<TokenMovement, Error>(Error::AdminError) && *final(st) == *old(st)
            } else if rate2 == 0 {
                r == Err::<TokenMovement, Error>(Error::RewardRateError) && *final(st) == *old(st)
            } else if caller_balance < new_reward {
                r == Err::<TokenMovement, Error>(Error::InsufficientBalance) && *final(st) == *old(
                    st,
                )
            } else {
                &&& r == Ok::<TokenMovement, Error>(
                    TokenMovement::PullFromCaller { amount: new_reward },
                )
                &&& *final(st) == (PoolState {
                    total_reward_reserve: (old(st).total_reward_reserve + new_reward) as u64,
                    total_funded: (old(st).total_funded + new_reward) as u64,
                    notified: true,
                    accrual: AccrualState::Continuous(
                        spec_notify_accrual(*cfg, ca2, now, new_reward),
                    ),
                    ..*old(st)
                })
            }
        }),
{
    if caller != cfg.owner {
        return Err(Error::AdminError);
    }
    let ca_in = match st.accrual {
        AccrualState::Continuous(ca_in) => ca_in,
        AccrualState::Snapshot(_) => {
            return Err(Error::FatalError);
        },
    };
    let mut ca = ca_in;
    proof {
        continuous::lemma_ok_weaken(*cfg, ca, st.total_funded, u64::MAX);
        continuous::lemma_update_preserves_accrual_ok(
            *cfg,
            ca,
            st.total_staked,
            st.total_funded,
            now,
        );
    }
    continuous::update_reward(cfg, &mut ca, st.total_staked, now);
    proof {
        continuous::lemma_notify_preserves_accrual_ok(
            *cfg,
            ca,
            st.total_funded,
            now,
            new_reward,
        );
    }
    let rate2: u64 = if now >= ca.finish_at {
        new_reward / cfg.duration
    } else {
        proof {
            assert(ca.last_update_time == now);
            assert(continuous::outstanding(ca) == ca.reward_rate * (ca.finish_at - now));
            assert(continuous::outstanding(ca) <= st.total_funded);
            vstd::arithmetic::mul::lemma_mul_is_commutative(
                (ca.finish_at - now) as int,
                ca.reward_rate as int,
            );
        }
        let rem128: u128 = ((ca.finish_at - now) as u128) * (ca.reward_rate as u128);
        let sum128: u128 = (new_reward as u128) + rem128;
        proof {
            vstd::arithmetic::div_mod::lemma_div_is_ordered_by_denominator(
                sum128 as int,
                1,
                cfg.duration as int,
            );
            vstd::arithmetic::div_mod::lemma_div_basics(sum128 as int);
            vstd::arithmetic::div_mod::lemma_div_pos_is_pos(sum128 as int, cfg.duration as int);
        }
        (sum128 / (cfg.duration as u128)) as u64
    };
    if rate2 == 0 {
        return Err(Error::RewardRateError);
    }
    if caller_balance < new_reward {
        return Err(Error::InsufficientBalance);
    }
    ca.reward_rate = rate2;
    ca.last_update_time = now;
    ca.finish_at = now + cfg.duration;
    st.accrual = AccrualState::Continuous(ca);
    st.total_reward_reserve = st.total_reward_reserve + new_reward;
    st.total_funded = st.total_funded + new_reward;
    st.notified = true;
    Ok(TokenMovement::PullFromCaller { amount: new_reward })
}

} // verus!
