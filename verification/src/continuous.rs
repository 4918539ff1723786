//! Continuous reward-accrual strategy: a global reward rate, distributed
//! per unit of time, is folded lazily into a reward-per-token index; each
//! account checkpoints the index on every touch and earns its pro-rata
//! share of whatever accumulated since.
//!
//! The module also carries the conservation invariants (`accrual_ok`,
//! `record_ok`) that bound every quantity by the reward ever funded, which
//! is what keeps all the arithmetic inside machine integers.

use vstd::prelude::*;
use vstd::arithmetic::div_mod::{
    lemma_div_basics, lemma_div_is_ordered, lemma_div_is_ordered_by_denominator,
    lemma_div_multiples_vanish, lemma_div_pos_is_pos, lemma_fundamental_div_mod,
    lemma_mod_bound,
};
use vstd::arithmetic::mul::{
    lemma_mul_inequality, lemma_mul_is_commutative, lemma_mul_is_distributive_add,
    lemma_mul_is_distributive_add_other_way, lemma_mul_is_distributive_sub,
    lemma_mul_is_distributive_sub_other_way, lemma_mul_nonnegative,
};
use crate::config::PoolConfig;
use crate::state::{ContinuousAccrual, StakeRecord};

verus! {

/// `10^e`.
pub open spec fn pow10(e: nat) -> nat
    decreases e,
{
    if e == 0 {
        1
    } else {
        10 * pow10((e - 1) as nat)
    }
}

/// `10^e` is at least one.
pub proof fn lemma_pow10_pos(e: nat)
    ensures
        pow10(e) >= 1,
    decreases e,
{
    if e > 0 {
        lemma_pow10_pos((e - 1) as nat);
    }
}

/// `10^e` grows with the exponent.
pub proof fn lemma_pow10_monotone(a: nat, b: nat)
    requires
        a <= b,
    ensures
        pow10(a) <= pow10(b),
    decreases b,
{
    if a < b {
        lemma_pow10_monotone(a, (b - 1) as nat);
        lemma_pow10_pos((b - 1) as nat);
    }
}

/// Scaling factor `10^decimals` applied to the reward-per-token index.
pub open spec fn spec_scale(cfg: PoolConfig) -> int {
    pow10(cfg.decimals as nat) as int
}

/// With `decimals <= 18` the scale lies in `[1, 10^18]`.
pub proof fn lemma_scale_bounds(cfg: PoolConfig)
    requires
        cfg.decimals <= 18,
    ensures
        1 <= spec_scale(cfg) <= 1000000000000000000,
{
    lemma_pow10_pos(cfg.decimals as nat);
    lemma_pow10_monotone(cfg.decimals as nat, 18);
    lemma_pow10_18();
}

/// Concrete value of the largest admitted scale.
pub proof fn lemma_pow10_18()
    ensures
        pow10(18) == 1000000000000000000,
{
    reveal_with_fuel(pow10, 20);
}

/// Computes `10^decimals`.
pub fn scale_factor(decimals: u8) -> (r: u64)
    requires
        decimals <= 18,
    ensures
        r == pow10(decimals as nat),
        r >= 1,
{
    proof {
        lemma_pow10_pos(decimals as nat);
    }
    let mut r: u64 = 1;
    let mut i: u8 = 0;
    while i < decimals
        invariant
            i <= decimals <= 18,
            r == pow10(i as nat),
        decreases decimals - i,
    {
        proof {
            lemma_pow10_monotone((i + 1) as nat, 18);
            lemma_pow10_18();
            assert(pow10((i + 1) as nat) == 10 * pow10(i as nat));
        }
        r = r * 10;
        i = i + 1;
    }
    r
}

/// Reward still scheduled for distribution in the current cycle.
pub open spec fn outstanding(ca: ContinuousAccrual) -> int {
    ca.reward_rate * (ca.finish_at - ca.last_update_time)
}

/// Validity of the global accrual state against the reward ever funded:
/// the cycle window is well formed and no longer than `duration`, and the
/// index plus the reward still scheduled never exceed the funded total
/// (everything measured in index units, i.e. scaled by `10^decimals`).
pub open spec fn accrual_ok(cfg: PoolConfig, ca: ContinuousAccrual, funded: u64) -> bool {
    &&& ca.last_update_time <= ca.finish_at
    &&& ca.finish_at - ca.last_update_time <= cfg.duration
    &&& outstanding(ca) <= funded
    &&& ca.reward_per_token_stored + outstanding(ca) * spec_scale(cfg) <= funded * spec_scale(cfg)
}

/// One record's share of the funded reward, in index units: what it was
/// paid, what it is owed, and what is still accruing toward it.
pub open spec fn entitlement(cfg: PoolConfig, ca: ContinuousAccrual, rec: StakeRecord) -> int {
    (rec.pending_reward + rec.claimed_amount) * spec_scale(cfg) + rec.staked_amount * (
    ca.reward_per_token_stored - rec.reward_per_token_paid)
}

/// Validity of one ledger record against the global accrual state: the
/// checkpoint never runs ahead of the index, and the record's paid,
/// pending and still-accruing reward, together with the reward still
/// scheduled, never exceed the funded total.
pub open spec fn record_ok(
    cfg: PoolConfig,
    ca: ContinuousAccrual,
    funded: u64,
    rec: StakeRecord,
) -> bool {
    &&& rec.reward_per_token_paid <= ca.reward_per_token_stored
    &&& entitlement(cfg, ca, rec) + outstanding(ca) * spec_scale(cfg) <= funded * spec_scale(cfg)
}

/// A funded bound may be relaxed upward.
pub proof fn lemma_ok_weaken(cfg: PoolConfig, ca: ContinuousAccrual, f1: u64, f2: u64)
    requires
        f1 <= f2,
        accrual_ok(cfg, ca, f1),
    ensures
        accrual_ok(cfg, ca, f2),
{
    lemma_pow10_pos(cfg.decimals as nat);
    lemma_mul_inequality(f1 as int, f2 as int, spec_scale(cfg));
}

/// A funded bound may be relaxed upward for a record, too.
pub proof fn lemma_record_ok_weaken(
    cfg: PoolConfig,
    ca: ContinuousAccrual,
    f1: u64,
    f2: u64,
    rec: StakeRecord,
)
    requires
        f1 <= f2,
        record_ok(cfg, ca, f1, rec),
    ensures
        record_ok(cfg, ca, f2, rec),
{
    lemma_pow10_pos(cfg.decimals as nat);
    lemma_mul_inequality(f1 as int, f2 as int, spec_scale(cfg));
}

/// Instant up to which reward accrues at `now`: time past `finish_at`
/// earns nothing.
pub open spec fn applicable_until(ca: ContinuousAccrual, now: u64) -> int {
    if ca.finish_at <= now {
        ca.finish_at as int
    } else {
        now as int
    }
}

/// Index growth since the last refresh.  An empty pool accrues nothing;
/// otherwise the rate integrated since `last_update_time`, scaled, is
/// split per staked token.
pub open spec fn index_delta(cfg: PoolConfig, ca: ContinuousAccrual, total_staked: u64, now: u64) -> int {
    if total_staked == 0 {
        0
    } else {
        ca.reward_rate * (applicable_until(ca, now) - ca.last_update_time) * spec_scale(cfg) / (
        total_staked as int)
    }
}

/// Value of the reward-per-token index at `now`.
pub open spec fn spec_reward_per_token(
    cfg: PoolConfig,
    ca: ContinuousAccrual,
    total_staked: u64,
    now: u64,
) -> int {
    ca.reward_per_token_stored + index_delta(cfg, ca, total_staked, now)
}

/// Accrual state after a lazy refresh at `now`: the index is brought up
/// to date and the refresh instant recorded, capped at `finish_at`.
pub open spec fn spec_update(
    cfg: PoolConfig,
    ca: ContinuousAccrual,
    total_staked: u64,
    now: u64,
) -> ContinuousAccrual {
    ContinuousAccrual {
        reward_per_token_stored: spec_reward_per_token(cfg, ca, total_staked, now) as u128,
        last_update_time: applicable_until(ca, now) as u64,
        ..ca
    }
}

/// Refreshing the index a second time at the same instant changes
/// nothing: both `reward_per_token_stored` and `last_update_time` stay as
/// the first refresh left them.
pub proof fn lemma_update_idempotent(
    cfg: PoolConfig,
    ca: ContinuousAccrual,
    total_staked: u64,
    now: u64,
)
    requires
        ca.last_update_time <= ca.finish_at,
    ensures
        spec_update(cfg, spec_update(cfg, ca, total_staked, now), total_staked, now)
            == spec_update(cfg, ca, total_staked, now),
{
    let ca1 = spec_update(cfg, ca, total_staked, now);
    assert(applicable_until(ca1, now) == ca1.last_update_time);
    assert(ca1.reward_rate * (applicable_until(ca1, now) - ca1.last_update_time) == 0);
    if total_staked > 0 {
        lemma_div_of0_helper(total_staked as int);
    }
    assert(index_delta(cfg, ca1, total_staked, now) == 0);
}

/// `0 / d == 0` for a positive divisor.
proof fn lemma_div_of0_helper(d: int)
    requires
        d >= 1,
    ensures
        0int / d == 0,
{
    lemma_div_basics(d);
}

/// Refreshes the global index up to `now` (capped at `finish_at`), as
/// every mutating entry point does first.
pub fn update_reward(cfg: &PoolConfig, ca: &mut ContinuousAccrual, total_staked: u64, now: u64)
    requires
        cfg.wf(),
        cfg.policy is ContinuousIndex,
        accrual_ok(*cfg, *old(ca), u64::MAX),
        now >= old(ca).last_update_time,
    ensures
        *final(ca) == spec_update(*cfg, *old(ca), total_staked, now),
{
    proof {
        lemma_scale_bounds(*cfg);
    }
    let ghost scale = spec_scale(*cfg);
    let upto: u64 = if ca.finish_at <= now {
        ca.finish_at
    } else {
        now
    };
    let dt: u64 = upto - ca.last_update_time;
    if total_staked > 0 {
        let scale_exec = scale_factor(cfg.decimals);
        proof {
            let rate = ca.reward_rate as int;
            let span = ca.finish_at - ca.last_update_time;
            lemma_mul_inequality(dt as int, span, rate);
            lemma_mul_is_commutative(dt as int, rate);
            lemma_mul_is_commutative(span, rate);
            assert(rate * dt <= outstanding(*ca));
            lemma_mul_nonnegative(rate, dt as int);
        }
        let num: u128 = (ca.reward_rate as u128) * (dt as u128);
        proof {
            let rate = ca.reward_rate as int;
            lemma_mul_inequality(num as int, outstanding(*ca), scale);
            lemma_mul_nonnegative(num as int, scale);
            assert(num * scale <= outstanding(*ca) * scale);
            assert(ca.reward_per_token_stored + outstanding(*ca) * scale <= (u64::MAX as int)
                * scale);
            assert((u64::MAX as int) * 1000000000000000000 < u128::MAX);
            lemma_mul_inequality(scale, 1000000000000000000, u64::MAX as int);
            lemma_mul_is_commutative(scale, u64::MAX as int);
            lemma_mul_is_commutative(1000000000000000000, u64::MAX as int);
            assert((u64::MAX as int) * scale <= (u64::MAX as int) * 1000000000000000000);
        }
        let num2: u128 = num * (scale_exec as u128);
        let delta: u128 = num2 / (total_staked as u128);
        proof {
            lemma_div_is_ordered_by_denominator(num2 as int, 1, total_staked as int);
            lemma_div_basics(num2 as int);
            lemma_div_pos_is_pos(num2 as int, total_staked as int);
            assert(delta <= num2);
        }
        ca.reward_per_token_stored = ca.reward_per_token_stored + delta;
    }
    ca.last_update_time = upto;
}

/// Reward owed to a record beyond its stored `pending_reward`: its stake
/// times the index growth since its checkpoint, unscaled.
pub open spec fn spec_earned_delta(cfg: PoolConfig, ca: ContinuousAccrual, rec: StakeRecord) -> int {
    rec.staked_amount * (ca.reward_per_token_stored - rec.reward_per_token_paid) / spec_scale(cfg)
}

/// Total reward owed to a record against a refreshed index.
pub open spec fn spec_earned(cfg: PoolConfig, ca: ContinuousAccrual, rec: StakeRecord) -> int {
    rec.pending_reward + spec_earned_delta(cfg, ca, rec)
}

/// Record after folding the accrued share into `pending_reward` and
/// resetting the checkpoint to the current index.
pub open spec fn spec_accrue(cfg: PoolConfig, ca: ContinuousAccrual, rec: StakeRecord) -> StakeRecord {
    StakeRecord {
        reward_per_token_paid: ca.reward_per_token_stored,
        pending_reward: spec_earned(cfg, ca, rec) as u64,
        ..rec
    }
}

/// Derived bounds of `record_ok` that the executable accrual needs: the
/// still-accruing share fits the machine and the owed total never exceeds
/// the funded total.
pub proof fn lemma_record_bounds(cfg: PoolConfig, ca: ContinuousAccrual, funded: u64, rec: StakeRecord)
    requires
        cfg.wf(),
        cfg.policy is ContinuousIndex,
        ca.last_update_time <= ca.finish_at,
        record_ok(cfg, ca, funded, rec),
    ensures
        rec.staked_amount * (ca.reward_per_token_stored - rec.reward_per_token_paid)
            <= (u64::MAX as int) * 1000000000000000000,
        0 <= spec_earned_delta(cfg, ca, rec),
        rec.pending_reward + rec.claimed_amount + spec_earned_delta(cfg, ca, rec) <= funded,
{
    lemma_scale_bounds(cfg);
    let scale = spec_scale(cfg);
    let term = rec.staked_amount * (ca.reward_per_token_stored - rec.reward_per_token_paid);
    let pc = rec.pending_reward + rec.claimed_amount;
    lemma_mul_nonnegative(pc, scale);
    lemma_mul_nonnegative(ca.reward_rate as int, ca.finish_at - ca.last_update_time);
    lemma_mul_nonnegative(outstanding(ca), scale);
    lemma_mul_nonnegative(rec.staked_amount as int, ca.reward_per_token_stored
        - rec.reward_per_token_paid);
    assert(term <= funded * scale);
    lemma_mul_inequality(funded as int, u64::MAX as int, scale);
    lemma_mul_inequality(scale, 1000000000000000000, u64::MAX as int);
    lemma_mul_is_commutative(scale, u64::MAX as int);
    lemma_mul_is_commutative(1000000000000000000, u64::MAX as int);
    lemma_div_pos_is_pos(term, scale);
    // term <= (funded - pc)*scale, so term/scale <= funded - pc
    lemma_mul_is_distributive_sub(scale, funded as int, pc);
    lemma_mul_is_commutative(scale, funded as int);
    lemma_mul_is_commutative(scale, pc);
    assert(term <= (funded - pc) * scale);
    lemma_div_is_ordered(term, (funded - pc) * scale, scale);
    lemma_mul_is_commutative(funded - pc, scale);
    lemma_div_multiples_vanish(funded - pc, scale);
    assert(term / scale <= funded - pc);
}

/// Folds the share accrued since the checkpoint into the record, against
/// an already refreshed index.
pub fn accrue_record(cfg: &PoolConfig, ca: &ContinuousAccrual, rec: &mut StakeRecord)
    requires
        cfg.wf(),
        cfg.policy is ContinuousIndex,
        ca.last_update_time <= ca.finish_at,
        record_ok(*cfg, *ca, u64::MAX, *old(rec)),
    ensures
        *final(rec) == spec_accrue(*cfg, *ca, *old(rec)),
{
    proof {
        lemma_scale_bounds(*cfg);
        lemma_record_bounds(*cfg, *ca, u64::MAX, *old(rec));
    }
    let scale_exec = scale_factor(cfg.decimals);
    let gap: u128 = ca.reward_per_token_stored - rec.reward_per_token_paid;
    proof {
        assert((u64::MAX as int) * 1000000000000000000 < u128::MAX);
    }
    let prod: u128 = (rec.staked_amount as u128) * gap;
    let delta128: u128 = prod / (scale_exec as u128);
    let delta: u64 = delta128 as u64;
    rec.pending_reward = rec.pending_reward + delta;
    rec.reward_per_token_paid = ca.reward_per_token_stored;
}

/// A lazy refresh preserves the global accrual invariant: the index gains
/// at most what the scheduled reward loses.
pub proof fn lemma_update_preserves_accrual_ok(
    cfg: PoolConfig,
    ca: ContinuousAccrual,
    total_staked: u64,
    funded: u64,
    now: u64,
)
    requires
        cfg.wf(),
        cfg.policy is ContinuousIndex,
        accrual_ok(cfg, ca, funded),
        now >= ca.last_update_time,
    ensures
        accrual_ok(cfg, spec_update(cfg, ca, total_staked, now), funded),
        0 <= index_delta(cfg, ca, total_staked, now),
        spec_reward_per_token(cfg, ca, total_staked, now) + outstanding(
            spec_update(cfg, ca, total_staked, now),
        ) * spec_scale(cfg) <= funded * spec_scale(cfg),
        0 <= spec_reward_per_token(cfg, ca, total_staked, now) <= u128::MAX,
{
    lemma_scale_bounds(cfg);
    let scale = spec_scale(cfg);
    let rate = ca.reward_rate as int;
    let last = ca.last_update_time as int;
    let finish = ca.finish_at as int;
    let upto = applicable_until(ca, now);
    let dt = upto - last;
    let delta = index_delta(cfg, ca, total_staked, now);
    let ca2 = spec_update(cfg, ca, total_staked, now);

    lemma_mul_inequality(dt, finish - last, rate);
    lemma_mul_is_commutative(dt, rate);
    lemma_mul_is_commutative(finish - last, rate);
    lemma_mul_nonnegative(rate, dt);
    assert(0 <= rate * dt <= outstanding(ca));

    // outstanding shrinks by exactly the integrated rate
    lemma_mul_is_distributive_sub(rate, finish - last, dt);
    assert(outstanding(ca2) == outstanding(ca) - rate * dt);

    if total_staked > 0 {
        let num2 = rate * dt * scale;
        lemma_mul_nonnegative(rate * dt, scale);
        lemma_div_pos_is_pos(num2, total_staked as int);
        lemma_div_is_ordered_by_denominator(num2, 1, total_staked as int);
        lemma_div_basics(num2);
        assert(0 <= delta <= num2);
        lemma_mul_inequality(rate * dt, outstanding(ca), scale);
        assert(num2 <= outstanding(ca) * scale);
    } else {
        assert(delta == 0);
    }

    // (outstanding - rate*dt) * scale == outstanding*scale - (rate*dt)*scale
    lemma_mul_is_distributive_sub_other_way(scale, outstanding(ca), rate * dt);
    lemma_mul_nonnegative(rate * dt, scale);
    assert(outstanding(ca2) * scale == outstanding(ca) * scale - rate * dt * scale);

    assert(spec_reward_per_token(cfg, ca, total_staked, now) + outstanding(ca2) * scale <= funded
        * scale);
    // the stored index stays in range of its u128 field
    lemma_mul_nonnegative(outstanding(ca2), scale);
    lemma_mul_inequality(funded as int, u64::MAX as int, scale);
    lemma_mul_inequality(scale, 1000000000000000000, u64::MAX as int);
    lemma_mul_is_commutative(scale, u64::MAX as int);
    lemma_mul_is_commutative(1000000000000000000, u64::MAX as int);
    assert((u64::MAX as int) * 1000000000000000000 < u128::MAX);
    assert(0 <= spec_reward_per_token(cfg, ca, total_staked, now) <= u128::MAX);
}

/// A lazy refresh preserves every record's invariant, provided the record
/// holds no more stake than the pool total.
pub proof fn lemma_update_preserves_record_ok(
    cfg: PoolConfig,
    ca: ContinuousAccrual,
    total_staked: u64,
    funded: u64,
    now: u64,
    rec: StakeRecord,
)
    requires
        cfg.wf(),
        cfg.policy is ContinuousIndex,
        accrual_ok(cfg, ca, funded),
        record_ok(cfg, ca, funded, rec),
        rec.staked_amount <= total_staked,
        now >= ca.last_update_time,
    ensures
        record_ok(cfg, spec_update(cfg, ca, total_staked, now), funded, rec),
{
    lemma_scale_bounds(cfg);
    let scale = spec_scale(cfg);
    let rate = ca.reward_rate as int;
    let last = ca.last_update_time as int;
    let finish = ca.finish_at as int;
    let upto = applicable_until(ca, now);
    let dt = upto - last;
    let delta = index_delta(cfg, ca, total_staked, now);
    let ca2 = spec_update(cfg, ca, total_staked, now);
    let staked = rec.staked_amount as int;
    let cp = rec.reward_per_token_paid as int;

    lemma_update_preserves_accrual_ok(cfg, ca, total_staked, funded, now);
    assert(ca2.reward_per_token_stored == ca.reward_per_token_stored + delta);

    // the record's accruing share grows by staked * delta ...
    lemma_mul_is_distributive_add(staked, ca.reward_per_token_stored - cp, delta);
    assert(staked * (ca2.reward_per_token_stored - cp) == staked * (ca.reward_per_token_stored
        - cp) + staked * delta);

    // ... which is at most the integrated rate, scaled
    lemma_mul_is_distributive_sub(rate, finish - last, dt);
    assert(outstanding(ca2) == outstanding(ca) - rate * dt);
    lemma_mul_inequality(dt, finish - last, rate);
    lemma_mul_is_commutative(dt, rate);
    lemma_mul_is_commutative(finish - last, rate);
    lemma_mul_nonnegative(rate, dt);
    if total_staked == 0 {
        assert(staked * delta == 0);
        assert(rate * dt * scale >= 0) by {
            lemma_mul_nonnegative(rate * dt, scale);
        }
    } else {
        let num2 = rate * dt * scale;
        lemma_mul_nonnegative(rate * dt, scale);
        lemma_div_pos_is_pos(num2, total_staked as int);
        lemma_mul_inequality(staked, total_staked as int, delta);
        lemma_mul_is_commutative(staked, delta);
        lemma_mul_is_commutative(total_staked as int, delta);
        // total * floor(num2 / total) <= num2
        lemma_fundamental_div_mod(num2, total_staked as int);
        lemma_mod_bound(num2, total_staked as int);
        assert((total_staked as int) * delta <= num2);
        assert(staked * delta <= num2);
    }

    // reassemble the bound with the shrunken outstanding term
    lemma_mul_is_distributive_sub_other_way(scale, outstanding(ca), rate * dt);
    assert(outstanding(ca2) * scale == outstanding(ca) * scale - rate * dt * scale);
    assert((rec.pending_reward + rec.claimed_amount) * scale + staked * (
    ca2.reward_per_token_stored - cp) + outstanding(ca2) * scale <= funded * scale);
}

/// Folding accrued reward into `pending_reward` preserves the record
/// invariant: the scaled pending total gains at most what the accruing
/// share loses.
pub proof fn lemma_accrue_preserves_record_ok(
    cfg: PoolConfig,
    ca: ContinuousAccrual,
    funded: u64,
    rec: StakeRecord,
)
    requires
        cfg.wf(),
        cfg.policy is ContinuousIndex,
        ca.last_update_time <= ca.finish_at,
        record_ok(cfg, ca, funded, rec),
    ensures
        record_ok(cfg, ca, funded, spec_accrue(cfg, ca, rec)),
        spec_accrue(cfg, ca, rec).pending_reward == spec_earned(cfg, ca, rec),
        spec_earned(cfg, ca, rec) + rec.claimed_amount <= funded,
{
    lemma_scale_bounds(cfg);
    let scale = spec_scale(cfg);
    let term = rec.staked_amount * (ca.reward_per_token_stored - rec.reward_per_token_paid);
    let delta = spec_earned_delta(cfg, ca, rec);
    lemma_record_bounds(cfg, ca, funded, rec);
    let rec2 = spec_accrue(cfg, ca, rec);
    assert(rec2.pending_reward == rec.pending_reward + delta);

    // scale * floor(term / scale) <= term
    lemma_fundamental_div_mod(term, scale);
    lemma_mod_bound(term, scale);
    assert(scale * delta <= term);

    lemma_mul_is_distributive_add_other_way(scale, rec.pending_reward + rec.claimed_amount, delta);
    lemma_mul_is_commutative(scale, delta);
    assert((rec2.pending_reward + rec2.claimed_amount) * scale == (rec.pending_reward
        + rec.claimed_amount) * scale + scale * delta);
    assert(rec2.reward_per_token_paid == ca.reward_per_token_stored);
    assert(ca.reward_per_token_stored - rec2.reward_per_token_paid == 0);
    assert(rec2.staked_amount * (ca.reward_per_token_stored - rec2.reward_per_token_paid) == 0);
    lemma_mul_nonnegative(rec.staked_amount as int, ca.reward_per_token_stored
        - rec.reward_per_token_paid);
}

/// Reward rate after funding `new_reward` at `now`: past the end
/// of a cycle the new reward alone is spread over `duration`; inside a
/// cycle the not-yet-distributed remainder of the old rate is blended in,
/// so re-funding mid-cycle forfeits nothing.
pub open spec fn spec_blended_rate(
    cfg: PoolConfig,
    ca: ContinuousAccrual,
    now: u64,
    new_reward: u64,
) -> int {
    if now >= ca.finish_at {
        (new_reward as int) / (cfg.duration as int)
    } else {
        (new_reward + (ca.finish_at - now) * ca.reward_rate) / (cfg.duration as int)
    }
}

/// Accrual state after funding `new_reward` at `now`, applied to an
/// already refreshed state: blended rate, checkpoint at `now`, and a full
/// cycle ahead.
pub open spec fn spec_notify_accrual(
    cfg: PoolConfig,
    ca: ContinuousAccrual,
    now: u64,
    new_reward: u64,
) -> ContinuousAccrual {
    ContinuousAccrual {
        reward_rate: spec_blended_rate(cfg, ca, now, new_reward) as u64,
        reward_per_token_stored: ca.reward_per_token_stored,
        last_update_time: now,
        finish_at: (now + cfg.duration) as u64,
    }
}

/// Funding preserves the invariants against the enlarged funded total:
/// the new scheduled reward is covered by the old remainder plus the new
/// contribution.
pub proof fn lemma_notify_preserves_ok(
    cfg: PoolConfig,
    ca: ContinuousAccrual,
    funded: u64,
    now: u64,
    new_reward: u64,
    rec: StakeRecord,
)
    requires
        cfg.wf(),
        cfg.policy is ContinuousIndex,
        accrual_ok(cfg, ca, funded),
        record_ok(cfg, ca, funded, rec),
        ca.last_update_time <= now,
        funded + new_reward <= u64::MAX,
        now + cfg.duration <= u64::MAX,
    ensures
        0 <= spec_blended_rate(cfg, ca, now, new_reward) <= u64::MAX,
        accrual_ok(cfg, spec_notify_accrual(cfg, ca, now, new_reward), (funded + new_reward) as u64),
        outstanding(spec_notify_accrual(cfg, ca, now, new_reward)) <= new_reward + outstanding(ca),
        record_ok(
            cfg,
            spec_notify_accrual(cfg, ca, now, new_reward),
            (funded + new_reward) as u64,
            rec,
        ),
{
    lemma_scale_bounds(cfg);
    let scale = spec_scale(cfg);
    let duration = cfg.duration as int;
    let rate = ca.reward_rate as int;
    let finish = ca.finish_at as int;
    let remaining: int = if now >= ca.finish_at {
        0
    } else {
        (finish - now) * rate
    };
    let rate2 = spec_blended_rate(cfg, ca, now, new_reward);
    let ca2 = spec_notify_accrual(cfg, ca, now, new_reward);

    // the remainder is covered by what was still outstanding
    lemma_mul_nonnegative(rate, finish - ca.last_update_time);
    if now < ca.finish_at {
        lemma_mul_inequality(finish - now, finish - ca.last_update_time, rate);
        lemma_mul_nonnegative(finish - now, rate);
        lemma_mul_is_commutative(finish - now, rate);
        lemma_mul_is_commutative(finish - ca.last_update_time, rate);
    }
    assert(0 <= remaining <= outstanding(ca));

    // the blended rate times the cycle length never exceeds its funding
    lemma_div_pos_is_pos(new_reward + remaining, duration);
    lemma_div_is_ordered_by_denominator(new_reward + remaining, 1, duration);
    lemma_div_basics(new_reward + remaining);
    lemma_div_pos_is_pos(new_reward as int, duration);
    lemma_div_is_ordered_by_denominator(new_reward as int, 1, duration);
    lemma_div_basics(new_reward as int);
    assert(0 <= rate2 <= new_reward + remaining);
    lemma_fundamental_div_mod(new_reward + remaining, duration);
    lemma_mod_bound(new_reward + remaining, duration);
    lemma_fundamental_div_mod(new_reward as int, duration);
    lemma_mod_bound(new_reward as int, duration);
    assert(outstanding(ca2) == rate2 * (now + duration - now));
    assert(rate2 * duration <= new_reward + remaining) by {
        if now >= ca.finish_at {
            assert(duration * rate2 <= new_reward as int);
        } else {
            assert(duration * rate2 <= new_reward + remaining);
        }
        lemma_mul_is_commutative(duration, rate2);
    }
    assert(outstanding(ca2) <= new_reward + outstanding(ca));

    // scaled: the index plus the new scheduled reward stay under the new total
    lemma_mul_inequality(outstanding(ca2), new_reward + outstanding(ca), scale);
    lemma_mul_is_distributive_add(scale, new_reward as int, outstanding(ca));
    lemma_mul_is_commutative(scale, new_reward as int);
    lemma_mul_is_commutative(scale, outstanding(ca));
    lemma_mul_is_commutative(scale, new_reward + outstanding(ca));
    assert((new_reward + outstanding(ca)) * scale == new_reward * scale + outstanding(ca) * scale);
    lemma_mul_is_distributive_add(scale, funded as int, new_reward as int);
    lemma_mul_is_commutative(scale, funded as int);
    lemma_mul_is_commutative(scale, funded + new_reward as int);
    assert((funded + new_reward) * scale == funded * scale + new_reward * scale);
    assert(ca2.reward_per_token_stored + outstanding(ca2) * scale <= (funded + new_reward) * scale);

    // the cycle window is exact
    assert(ca2.finish_at - ca2.last_update_time == duration);
    assert(outstanding(ca2) <= funded + new_reward);

    // and each record's budget line moves up with the funded total
    lemma_mul_nonnegative(rec.staked_amount as int, ca.reward_per_token_stored
        - rec.reward_per_token_paid);
    lemma_mul_nonnegative(rec.pending_reward + rec.claimed_amount, scale);
}

/// Funding preserves the global accrual invariant alone; the form used
/// where no ledger record is in play.
pub proof fn lemma_notify_preserves_accrual_ok(
    cfg: PoolConfig,
    ca: ContinuousAccrual,
    funded: u64,
    now: u64,
    new_reward: u64,
)
    requires
        cfg.wf(),
        cfg.policy is ContinuousIndex,
        accrual_ok(cfg, ca, funded),
        ca.last_update_time <= now,
        funded + new_reward <= u64::MAX,
        now + cfg.duration <= u64::MAX,
    ensures
        0 <= spec_blended_rate(cfg, ca, now, new_reward) <= u64::MAX,
        accrual_ok(cfg, spec_notify_accrual(cfg, ca, now, new_reward), (funded + new_reward) as u64),
        outstanding(spec_notify_accrual(cfg, ca, now, new_reward)) <= new_reward + outstanding(ca),
{
    let zero = StakeRecord {
        account: 0,
        staked_amount: 0,
        reward_per_token_paid: 0,
        pending_reward: 0,
        claimed_amount: 0,
    };
    lemma_scale_bounds(cfg);
    vstd::arithmetic::mul::lemma_mul_basics(spec_scale(cfg));
    vstd::arithmetic::mul::lemma_mul_basics(
        ca.reward_per_token_stored - zero.reward_per_token_paid,
    );
    assert(record_ok(cfg, ca, funded, zero));
    lemma_notify_preserves_ok(cfg, ca, funded, now, new_reward, zero);
}

/// Folding the accrued share into `pending_reward` never raises a
/// record's entitlement: the scaled pending gain is at most the accruing
/// share it replaces.
pub proof fn lemma_accrue_entitlement(
    cfg: PoolConfig,
    ca: ContinuousAccrual,
    funded: u64,
    rec: StakeRecord,
)
    requires
        cfg.wf(),
        cfg.policy is ContinuousIndex,
        ca.last_update_time <= ca.finish_at,
        record_ok(cfg, ca, funded, rec),
    ensures
        entitlement(cfg, ca, spec_accrue(cfg, ca, rec)) <= entitlement(cfg, ca, rec),
        entitlement(cfg, ca, spec_accrue(cfg, ca, rec)) == (spec_earned(cfg, ca, rec)
            + rec.claimed_amount) * spec_scale(cfg),
{
    lemma_scale_bounds(cfg);
    let scale = spec_scale(cfg);
    let term = rec.staked_amount * (ca.reward_per_token_stored - rec.reward_per_token_paid);
    let delta = spec_earned_delta(cfg, ca, rec);
    lemma_record_bounds(cfg, ca, funded, rec);
    let rec2 = spec_accrue(cfg, ca, rec);
    assert(rec2.pending_reward == rec.pending_reward + delta);
    lemma_fundamental_div_mod(term, scale);
    lemma_mod_bound(term, scale);
    assert(scale * delta <= term);
    lemma_mul_is_distributive_add_other_way(scale, rec.pending_reward + rec.claimed_amount, delta);
    lemma_mul_is_commutative(scale, delta);
    assert(rec2.reward_per_token_paid == ca.reward_per_token_stored);
    assert(ca.reward_per_token_stored - rec2.reward_per_token_paid == 0);
    assert(rec2.staked_amount * (ca.reward_per_token_stored - rec2.reward_per_token_paid) == 0);
}

/// Sum of all records' entitlements.
pub open spec fn sum_entitlement(cfg: PoolConfig, ca: ContinuousAccrual, s: Seq<StakeRecord>) -> int
    decreases s.len(),
{
    if s.len() == 0 {
        0
    } else {
        sum_entitlement(cfg, ca, s.drop_last()) + entitlement(cfg, ca, s.last())
    }
}

/// Appending a record adds its entitlement to the sum.
pub proof fn lemma_sum_entitlement_push(
    cfg: PoolConfig,
    ca: ContinuousAccrual,
    s: Seq<StakeRecord>,
    r: StakeRecord,
)
    ensures
        sum_entitlement(cfg, ca, s.push(r)) == sum_entitlement(cfg, ca, s) + entitlement(
            cfg,
            ca,
            r,
        ),
{
    assert(s.push(r).drop_last() =~= s);
}

/// Replacing one record shifts the sum by the difference it makes.
pub proof fn lemma_sum_entitlement_update(
    cfg: PoolConfig,
    ca: ContinuousAccrual,
    s: Seq<StakeRecord>,
    i: int,
    r: StakeRecord,
)
    requires
        0 <= i < s.len(),
    ensures
        sum_entitlement(cfg, ca, s.update(i, r)) == sum_entitlement(cfg, ca, s) - entitlement(
            cfg,
            ca,
            s[i],
        ) + entitlement(cfg, ca, r),
    decreases s.len(),
{
    let s2 = s.update(i, r);
    if i == s.len() - 1 {
        assert(s2.drop_last() =~= s.drop_last());
        assert(s2.last() == r);
    } else {
        assert(s2.drop_last() =~= s.drop_last().update(i, r));
        assert(s2.last() == s.last());
        lemma_sum_entitlement_update(cfg, ca, s.drop_last(), i, r);
    }
}

/// Raising the index by `delta` raises the entitlement sum by the staked
/// sum times `delta`.
pub proof fn lemma_sum_entitlement_index_shift(
    cfg: PoolConfig,
    ca: ContinuousAccrual,
    ca2: ContinuousAccrual,
    s: Seq<StakeRecord>,
    delta: int,
)
    requires
        ca2.reward_per_token_stored == ca.reward_per_token_stored + delta,
    ensures
        sum_entitlement(cfg, ca2, s) == sum_entitlement(cfg, ca, s) + crate::ledger::sum_staked(s)
            * delta,
    decreases s.len(),
{
    if s.len() == 0 {
        vstd::arithmetic::mul::lemma_mul_basics(delta);
        assert(crate::ledger::sum_staked(s) * delta == 0);
    } else {
        lemma_sum_entitlement_index_shift(cfg, ca, ca2, s.drop_last(), delta);
        let r = s.last();
        lemma_mul_is_distributive_add(
            r.staked_amount as int,
            ca.reward_per_token_stored - r.reward_per_token_paid,
            delta,
        );
        assert(entitlement(cfg, ca2, r) == entitlement(cfg, ca, r) + r.staked_amount * delta);
        lemma_mul_is_distributive_add_other_way(
            delta,
            crate::ledger::sum_staked(s.drop_last()),
            r.staked_amount as int,
        );
    }
}

/// The scaled paid-plus-pending sums never exceed the entitlement sum:
/// each accruing share discarded on the left is non-negative.
pub proof fn lemma_sum_entitlement_extract(
    cfg: PoolConfig,
    ca: ContinuousAccrual,
    s: Seq<StakeRecord>,
)
    requires
        forall|i: int|
            0 <= i < s.len() ==> #[trigger] s[i].reward_per_token_paid
                <= ca.reward_per_token_stored,
    ensures
        (crate::ledger::sum_pending(s) + crate::ledger::sum_claimed(s)) * spec_scale(cfg)
            <= sum_entitlement(cfg, ca, s),
    decreases s.len(),
{
    lemma_pow10_pos(cfg.decimals as nat);
    if s.len() == 0 {
        vstd::arithmetic::mul::lemma_mul_basics(spec_scale(cfg));
    } else {
        lemma_sum_entitlement_extract(cfg, ca, s.drop_last());
        let r = s.last();
        assert(r == s[s.len() - 1]);
        lemma_mul_nonnegative(
            r.staked_amount as int,
            ca.reward_per_token_stored - r.reward_per_token_paid,
        );
        lemma_mul_is_distributive_add_other_way(
            spec_scale(cfg),
            crate::ledger::sum_pending(s.drop_last()) + crate::ledger::sum_claimed(s.drop_last()),
            r.pending_reward + r.claimed_amount,
        );
    }
}

/// A lazy refresh does not raise the ledger-wide budget: the entitlement
/// sum plus the still-scheduled reward stay within the funded total.
pub proof fn lemma_update_preserves_sum(
    cfg: PoolConfig,
    ca: ContinuousAccrual,
    total_staked: u64,
    funded: u64,
    now: u64,
    s: Seq<StakeRecord>,
)
    requires
        cfg.wf(),
        cfg.policy is ContinuousIndex,
        accrual_ok(cfg, ca, funded),
        now >= ca.last_update_time,
        crate::ledger::sum_staked(s) == total_staked,
        sum_entitlement(cfg, ca, s) + outstanding(ca) * spec_scale(cfg) <= funded * spec_scale(
            cfg,
        ),
    ensures
        sum_entitlement(cfg, spec_update(cfg, ca, total_staked, now), s) + outstanding(
            spec_update(cfg, ca, total_staked, now),
        ) * spec_scale(cfg) <= funded * spec_scale(cfg),
{
    lemma_scale_bounds(cfg);
    let scale = spec_scale(cfg);
    let rate = ca.reward_rate as int;
    let last = ca.last_update_time as int;
    let finish = ca.finish_at as int;
    let upto = applicable_until(ca, now);
    let dt = upto - last;
    let delta = index_delta(cfg, ca, total_staked, now);
    let ca2 = spec_update(cfg, ca, total_staked, now);

    lemma_update_preserves_accrual_ok(cfg, ca, total_staked, funded, now);
    assert(ca2.reward_per_token_stored == ca.reward_per_token_stored + delta);
    lemma_sum_entitlement_index_shift(cfg, ca, ca2, s, delta);

    lemma_mul_is_distributive_sub(rate, finish - last, dt);
    assert(outstanding(ca2) == outstanding(ca) - rate * dt);
    lemma_mul_inequality(dt, finish - last, rate);
    lemma_mul_is_commutative(dt, rate);
    lemma_mul_is_commutative(finish - last, rate);
    lemma_mul_nonnegative(rate, dt);
    if total_staked == 0 {
        vstd::arithmetic::mul::lemma_mul_basics(crate::ledger::sum_staked(s));
        assert(crate::ledger::sum_staked(s) * delta == 0);
        lemma_mul_nonnegative(rate * dt, scale);
    } else {
        let num2 = rate * dt * scale;
        lemma_mul_nonnegative(rate * dt, scale);
        lemma_div_pos_is_pos(num2, total_staked as int);
        lemma_fundamental_div_mod(num2, total_staked as int);
        lemma_mod_bound(num2, total_staked as int);
        assert((total_staked as int) * delta <= num2);
        assert(crate::ledger::sum_staked(s) * delta <= num2);
    }
    lemma_mul_is_distributive_sub_other_way(scale, outstanding(ca), rate * dt);
    assert(outstanding(ca2) * scale == outstanding(ca) * scale - rate * dt * scale);
}

} // verus!
