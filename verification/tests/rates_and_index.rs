use stake::apr::{calculate_dynamic_apr, calculate_elapsed_apr};
use stake::config::{PoolConfig, RewardPolicy};
use stake::continuous::{scale_factor, update_reward};
use stake::pool::Pool;
use stake::state::{ContinuousAccrual, PoolState, StakeRecord, TokenMovement};

fn continuous_config(decimals: u8) -> PoolConfig {
    PoolConfig {
        token_id: 1,
        owner: 7,
        policy: RewardPolicy::ContinuousIndex,
        min_stake: 1,
        max_stake: 100_000,
        max_capacity: 1_000_000,
        lock_period: 50,
        deposit_start_time: 0,
        deposit_end_time: 1000,
        fixed_apr: 0,
        min_apr: 5,
        max_apr: 15,
        duration: 100,
        decimals,
    }
}

#[test]
fn dynamic_apr_formula() {
    // 5 + (15 - 5) * (100 - 50) / 100 = 10
    assert_eq!(calculate_dynamic_apr(500, 1000, 5, 15), 10);
    // utilization endpoints
    assert_eq!(calculate_dynamic_apr(0, 1000, 5, 15), 15);
    assert_eq!(calculate_dynamic_apr(1000, 1000, 5, 15), 5);
    // beyond capacity still floors at min_apr
    assert_eq!(calculate_dynamic_apr(2000, 1000, 5, 15), 5);
    // filling the pool never raises the offered rate
    let mut prev = calculate_dynamic_apr(0, 1000, 5, 15);
    for total in [100u64, 250, 400, 700, 999, 1000] {
        let apr = calculate_dynamic_apr(total, 1000, 5, 15);
        assert!(apr <= prev);
        prev = apr;
    }
}

#[test]
fn elapsed_apr_formula() {
    // a quarter of the lock period elapsed: 5 + 10 * 75 / 100 = 12
    assert_eq!(calculate_elapsed_apr(50, 0, 200, 5, 15), 12);
    assert_eq!(calculate_elapsed_apr(0, 0, 200, 5, 15), 15);
    assert_eq!(calculate_elapsed_apr(200, 0, 200, 5, 15), 5);
}

#[test]
fn scale_factor_values() {
    assert_eq!(scale_factor(0), 1);
    assert_eq!(scale_factor(2), 100);
    assert_eq!(scale_factor(9), 1_000_000_000);
    assert_eq!(scale_factor(18), 1_000_000_000_000_000_000);
}

#[test]
fn index_refresh_is_idempotent() {
    // refreshing the index twice at the same instant changes nothing
    let cfg = continuous_config(2);
    let mut ca = ContinuousAccrual {
        reward_rate: 10,
        reward_per_token_stored: 0,
        last_update_time: 0,
        finish_at: 100,
    };
    update_reward(&cfg, &mut ca, 400, 40);
    let after_once = ca;
    update_reward(&cfg, &mut ca, 400, 40);
    assert_eq!(ca, after_once);
    // 10 * 40 * 100 / 400 = 100
    assert_eq!(after_once.reward_per_token_stored, 100);
    assert_eq!(after_once.last_update_time, 40);
}

#[test]
fn index_stops_at_cycle_end() {
    let cfg = continuous_config(0);
    let mut ca = ContinuousAccrual {
        reward_rate: 10,
        reward_per_token_stored: 0,
        last_update_time: 0,
        finish_at: 100,
    };
    // far past finish_at only the cycle window accrues: 10 * 100 / 50 = 20
    update_reward(&cfg, &mut ca, 50, 10_000);
    assert_eq!(ca.reward_per_token_stored, 20);
    assert_eq!(ca.last_update_time, 100);
}

#[test]
fn empty_pool_accrues_nothing() {
    let cfg = continuous_config(0);
    let mut ca = ContinuousAccrual {
        reward_rate: 10,
        reward_per_token_stored: 7,
        last_update_time: 0,
        finish_at: 100,
    };
    update_reward(&cfg, &mut ca, 0, 60);
    assert_eq!(ca.reward_per_token_stored, 7);
    assert_eq!(ca.last_update_time, 60);
}

#[test]
fn reward_per_token_query() {
    let mut p = Pool::configure(continuous_config(2)).unwrap();
    p.notify_reward_amount(7, 0, 1000, 1_000_000).unwrap();
    p.stake(42, 0, 100, 1_000_000).unwrap();
    // 10 per second, scaled by 100, split over 100 tokens, for 50 seconds
    assert_eq!(p.reward_per_token(50), 500);
    // two stakers halve the per-token rate thereafter
    p.stake(43, 50, 100, 1_000_000).unwrap();
    assert_eq!(p.reward_per_token(100), 500 + 250);
}

#[test]
fn two_stakers_split_rewards() {
    let mut p = Pool::configure(continuous_config(2)).unwrap();
    p.notify_reward_amount(7, 0, 1000, 1_000_000).unwrap();
    p.stake(1, 0, 300, 1_000_000).unwrap();
    p.stake(2, 0, 100, 1_000_000).unwrap();
    // over the whole cycle: 1000 distributed 3:1
    assert_eq!(p.earned(1, 100), 750);
    assert_eq!(p.earned(2, 100), 250);
}

#[test]
fn engine_level_transitions() {
    // the per-record transitions, driven exactly as a host shell would
    let cfg = continuous_config(0);
    let mut st = PoolState::initial(&cfg);
    let mut rec = StakeRecord::new(9);
    let r = stake::engine::stake(&cfg, &mut st, &mut rec, 5, 10, 100);
    assert_eq!(r, Ok(TokenMovement::PullFromCaller { amount: 10 }));
    assert_eq!(st.total_staked, 10);
    assert_eq!(rec.staked_amount, 10);
    let r = stake::engine::claim(&cfg, &mut st, &mut rec, 6);
    assert_eq!(r, Ok(TokenMovement::PayToCaller { principal: 0, reward: 0 }));
    let r = stake::engine::unstake(&cfg, &mut st, &mut rec, 1050, None);
    assert_eq!(r, Ok(TokenMovement::PayToCaller { principal: 10, reward: 0 }));
    assert_eq!(st.total_staked, 0);
    assert_eq!(rec.staked_amount, 0);
}
