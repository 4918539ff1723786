//! The pool-wide laws, stated on their own so a reader finds them in one
//! place.  Two further laws live beside the definitions they speak of:
//! the idempotence of the index refresh
//! (`continuous::lemma_update_idempotent`) and the endpoints and
//! monotonicity of the interpolated APR
//! (`apr::lemma_interpolated_apr_endpoints`,
//! `apr::lemma_interpolated_apr_antitone`).

use vstd::prelude::*;
use vstd::arithmetic::div_mod::{lemma_fundamental_div_mod, lemma_mod_bound};
use vstd::arithmetic::mul::lemma_mul_nonnegative;
use crate::config::PoolConfig;
use crate::continuous;
use crate::continuous::{
    applicable_until, spec_earned, spec_reward_per_token, spec_scale, spec_update,
};
use crate::engine::clock_ok;
use crate::ledger::{sum_claimed, sum_pending, sum_staked};
use crate::pool::Pool;
use crate::state::ContinuousAccrual;

verus! {

/// Ledger conservation: in every well-formed pool the staked amounts in
/// the ledger sum exactly to the recorded total, and that total never
/// exceeds the configured capacity.  Every operation of `Pool` requires
/// and re-establishes well-formedness, so both hold in every reachable
/// state.
pub proof fn lemma_ledger_conservation(p: Pool)
    requires
        p.wf(),
    ensures
        sum_staked(p.records@) == p.state.total_staked,
        p.state.total_staked <= p.config.max_capacity,
{
}

/// Payout conservation: the rewards ever paid out of the ledger plus the
/// remaining reserve equal the reward ever contributed at funding time;
/// in particular, cumulative payouts never exceed the funding.
pub proof fn lemma_payout_conservation(p: Pool)
    requires
        p.wf(),
    ensures
        sum_claimed(p.records@) + p.state.total_reward_reserve == p.state.total_funded,
        sum_claimed(p.records@) <= p.state.total_funded,
{
}

/// The continuous index distributes exactly the reward rate integrated
/// over `[last_update_time, min(finish_at, now)]`: multiplied by the
/// staked total, the index growth equals that scaled integral, up to the
/// division remainder, which is smaller than the staked total.
pub proof fn lemma_index_integrates_rate(
    cfg: PoolConfig,
    ca: ContinuousAccrual,
    total_staked: u64,
    now: u64,
)
    requires
        total_staked > 0,
        ca.last_update_time <= ca.finish_at,
        now >= ca.last_update_time,
    ensures
        ({
            let integral = ca.reward_rate * (applicable_until(ca, now) - ca.last_update_time)
                * spec_scale(cfg);
            let remainder = integral % (total_staked as int);
            &&& (total_staked as int) * (spec_reward_per_token(cfg, ca, total_staked, now)
                - ca.reward_per_token_stored) == integral - remainder
            &&& 0 <= remainder < total_staked
        }),
{
    let dt = applicable_until(ca, now) - ca.last_update_time;
    let integral = ca.reward_rate * dt * spec_scale(cfg);
    continuous::lemma_pow10_pos(cfg.decimals as nat);
    lemma_mul_nonnegative(ca.reward_rate as int, dt);
    lemma_mul_nonnegative(ca.reward_rate * dt, spec_scale(cfg));
    lemma_fundamental_div_mod(integral, total_staked as int);
    lemma_mod_bound(integral, total_staked as int);
}

/// No account is ever owed more than the pool was funded: for every
/// record of a well-formed continuous pool, the reward owed at any `now`,
/// plus what the account already claimed, stays within the funded total.
pub proof fn lemma_owed_within_funding(p: Pool, i: int, now: u64)
    requires
        p.wf(),
        p.config.policy is ContinuousIndex,
        clock_ok(p.state, now),
        0 <= i < p.records@.len(),
    ensures
        ({
            let ca2 = spec_update(
                p.config,
                p.state.accrual->Continuous_0,
                p.state.total_staked,
                now,
            );
            spec_earned(p.config, ca2, p.records@[i]) + p.records@[i].claimed_amount
                <= p.state.total_funded
        }),
{
    let ca = p.state.accrual->Continuous_0;
    let ca2 = spec_update(p.config, ca, p.state.total_staked, now);
    let rec = p.records@[i];
    crate::ledger::lemma_element_bounds(p.records@, i);
    continuous::lemma_update_preserves_accrual_ok(
        p.config,
        ca,
        p.state.total_staked,
        p.state.total_funded,
        now,
    );
    continuous::lemma_update_preserves_record_ok(
        p.config,
        ca,
        p.state.total_staked,
        p.state.total_funded,
        now,
        rec,
    );
    continuous::lemma_record_bounds(p.config, ca2, p.state.total_funded, rec);
}

/// Solvency of the continuous model: even if every account's accrued
/// reward were paid out right now, cumulative payouts over the whole
/// ledger would still stay within the reward ever funded.
pub proof fn lemma_solvency(p: Pool)
    requires
        p.wf(),
        p.config.policy is ContinuousIndex,
    ensures
        sum_pending(p.records@) + sum_claimed(p.records@) <= p.state.total_funded,
{
    let ca = p.state.accrual->Continuous_0;
    let scale = spec_scale(p.config);
    continuous::lemma_scale_bounds(p.config);
    assert forall|i: int|
        0 <= i < p.records@.len() implies #[trigger] p.records@[i].reward_per_token_paid
        <= ca.reward_per_token_stored by {
        assert(crate::engine::rec_ok(p.config, p.state, p.records@[i]));
    }
    continuous::lemma_sum_entitlement_extract(p.config, ca, p.records@);
    vstd::arithmetic::mul::lemma_mul_nonnegative(
        ca.reward_rate as int,
        ca.finish_at - ca.last_update_time,
    );
    lemma_mul_nonnegative(continuous::outstanding(ca), scale);
    assert((sum_pending(p.records@) + sum_claimed(p.records@)) * scale
        <= p.state.total_funded * scale);
    vstd::arithmetic::mul::lemma_mul_inequality_converse(
        sum_pending(p.records@) + sum_claimed(p.records@),
        p.state.total_funded as int,
        scale,
    );
}

} // verus!
