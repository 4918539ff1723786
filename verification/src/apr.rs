//! Dynamic APR derivation for the snapshot strategies: a linear
//! interpolation between `max_apr` and `min_apr`, driven either by pool
//! utilization or by the time elapsed within the lock period.

use vstd::prelude::*;
use vstd::arithmetic::div_mod::{
    lemma_div_is_ordered, lemma_div_multiples_vanish, lemma_div_pos_is_pos,
};
use vstd::arithmetic::mul::{lemma_mul_inequality, lemma_mul_nonnegative};

verus! {

/// APR in percent for a pool whose utilization numerator is `part` out of
/// `whole`: `max_apr` at ratio 0, falling linearly to `min_apr` at ratio
/// 100 or above.
pub open spec fn spec_interpolated_apr(part: int, whole: int, min_apr: int, max_apr: int) -> int
    recommends
        whole >= 1,
        min_apr <= max_apr,
        part >= 0,
{
    let ratio = part * 100 / whole;
    if ratio >= 100 {
        min_apr
    } else {
        min_apr + (max_apr - min_apr) * (100 - ratio) / 100
    }
}

/// The interpolation always lands inside `[min_apr, max_apr]`.
pub proof fn lemma_interpolated_apr_bounds(part: int, whole: int, min_apr: int, max_apr: int)
    requires
        whole >= 1,
        min_apr <= max_apr,
        part >= 0,
    ensures
        min_apr <= spec_interpolated_apr(part, whole, min_apr, max_apr) <= max_apr,
{
    let ratio = part * 100 / whole;
    lemma_mul_nonnegative(part, 100);
    lemma_div_pos_is_pos(part * 100, whole);
    if ratio < 100 {
        let d = max_apr - min_apr;
        assert(d * (100 - ratio) <= d * 100) by {
            lemma_mul_inequality(100 - ratio, 100, d);
            assert(d * (100 - ratio) == (100 - ratio) * d);
            assert(d * 100 == 100 * d);
        }
        lemma_div_is_ordered(d * (100 - ratio), d * 100, 100);
        lemma_div_multiples_vanish(d, 100);
        assert(d * 100 == 100 * d);
        lemma_mul_nonnegative(d, 100 - ratio);
        lemma_div_pos_is_pos(d * (100 - ratio), 100);
    }
}

/// Interpolated APR, computed executably.
fn interpolated_apr(part: u64, whole: u64, min_apr: u64, max_apr: u64) -> (r: u64)
    requires
        whole >= 1,
        min_apr <= max_apr,
    ensures
        r == spec_interpolated_apr(part as int, whole as int, min_apr as int, max_apr as int),
        min_apr <= r <= max_apr,
{
    proof {
        lemma_interpolated_apr_bounds(part as int, whole as int, min_apr as int, max_apr as int);
    }
    let ratio: u128 = (part as u128) * 100 / (whole as u128);
    if ratio >= 100 {
        min_apr
    } else {
        let scaled: u128 = ((max_apr - min_apr) as u128) * (100 - ratio) / 100;
        proof {
            let d = max_apr - min_apr;
            let r = ratio as int;
            assert(d * (100 - r) <= d * 100) by {
                lemma_mul_inequality(100 - r, 100, d as int);
                assert(d * (100 - r) == (100 - r) * d);
                assert(d * 100 == 100 * d);
            }
            lemma_div_is_ordered(d * (100 - r), d * 100, 100);
            lemma_div_multiples_vanish(d as int, 100);
            assert(d * 100 == 100 * d);
        }
        min_apr + (scaled as u64)
    }
}

/// APR derived from pool utilization: the fraction of `max_cap` that
/// `total_supply` fills.  Early depositors into an emptier pool receive a
/// higher rate.
pub fn calculate_dynamic_apr(total_supply: u64, max_cap: u64, min_apr: u64, max_apr: u64) -> (r:
    u64)
    requires
        max_cap >= 1,
        min_apr <= max_apr,
    ensures
        r == spec_interpolated_apr(total_supply as int, max_cap as int, min_apr as int, max_apr as int),
        min_apr <= r <= max_apr,
{
    interpolated_apr(total_supply, max_cap, min_apr, max_apr)
}

/// APR derived from the time already elapsed within the lock period at
/// stake time: depositors who commit earlier receive a higher rate.
pub fn calculate_elapsed_apr(now: u64, start: u64, lock_period: u64, min_apr: u64, max_apr: u64) -> (r: u64)
    requires
        lock_period >= 1,
        min_apr <= max_apr,
        now >= start,
    ensures
        r == spec_interpolated_apr(now - start, lock_period as int, min_apr as int, max_apr as int),
        min_apr <= r <= max_apr,
{
    interpolated_apr(now - start, lock_period, min_apr, max_apr)
}

/// A depositor joining an empty pool receives exactly `max_apr`; one
/// joining a pool already at capacity receives exactly `min_apr`.
pub proof fn lemma_interpolated_apr_endpoints(whole: int, min_apr: int, max_apr: int)
    requires
        whole >= 1,
        min_apr <= max_apr,
    ensures
        spec_interpolated_apr(0, whole, min_apr, max_apr) == max_apr,
        spec_interpolated_apr(whole, whole, min_apr, max_apr) == min_apr,
{
    assert(0int * 100 == 0);
    lemma_div_pos_is_pos(0, whole);
    lemma_div_is_ordered(0, 0, whole);
    assert(0int / whole == 0) by {
        vstd::arithmetic::div_mod::lemma_div_of0(whole);
    }
    let d = max_apr - min_apr;
    lemma_div_multiples_vanish(d, 100);
    assert(d * 100 == 100 * d);
    assert(spec_interpolated_apr(0, whole, min_apr, max_apr) == min_apr + d);
    lemma_div_multiples_vanish(100, whole);
    assert(whole * 100 == 100 * whole);
    assert(whole * 100 / whole == 100);
}

/// Filling the pool further never raises the APR offered to the next
/// depositor: the interpolation is antitone in the utilization numerator.
pub proof fn lemma_interpolated_apr_antitone(
    part1: int,
    part2: int,
    whole: int,
    min_apr: int,
    max_apr: int,
)
    requires
        whole >= 1,
        min_apr <= max_apr,
        0 <= part1 <= part2,
    ensures
        spec_interpolated_apr(part2, whole, min_apr, max_apr) <= spec_interpolated_apr(
            part1,
            whole,
            min_apr,
            max_apr,
        ),
{
    let r1 = part1 * 100 / whole;
    let r2 = part2 * 100 / whole;
    assert(part1 * 100 <= part2 * 100) by {
        lemma_mul_inequality(part1, part2, 100);
        assert(part1 * 100 == 100 * part1);
    }
    lemma_div_is_ordered(part1 * 100, part2 * 100, whole);
    lemma_interpolated_apr_bounds(part1, whole, min_apr, max_apr);
    lemma_interpolated_apr_bounds(part2, whole, min_apr, max_apr);
    let d = max_apr - min_apr;
    if r2 < 100 {
        assert(d * (100 - r2) <= d * (100 - r1)) by {
            lemma_mul_inequality(100 - r2, 100 - r1, d);
            assert(d * (100 - r2) == (100 - r2) * d);
            assert(d * (100 - r1) == (100 - r1) * d);
        }
        lemma_div_is_ordered(d * (100 - r2), d * (100 - r1), 100);
    }
}

} // verus!
