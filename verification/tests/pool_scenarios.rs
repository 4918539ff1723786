use stake::config::{PoolConfig, RewardPolicy};
use stake::errors::Error;
use stake::pool::Pool;
use stake::state::{AccrualState, TokenMovement};

fn continuous_config() -> PoolConfig {
    PoolConfig {
        token_id: 1,
        owner: 7,
        policy: RewardPolicy::ContinuousIndex,
        min_stake: 10,
        max_stake: 1000,
        max_capacity: 5000,
        lock_period: 50,
        deposit_start_time: 0,
        deposit_end_time: 1000,
        fixed_apr: 0,
        min_apr: 5,
        max_apr: 15,
        duration: 100,
        decimals: 0,
    }
}

fn snapshot_config(fixed_apr: u64) -> PoolConfig {
    PoolConfig {
        token_id: 1,
        owner: 7,
        policy: RewardPolicy::SnapshotAprByUtilization,
        min_stake: 10,
        max_stake: 1000,
        max_capacity: 1000,
        lock_period: 200,
        deposit_start_time: 0,
        deposit_end_time: 100,
        fixed_apr,
        min_apr: 5,
        max_apr: 15,
        duration: 0,
        decimals: 9,
    }
}

fn staked_of(p: &Pool, account: u64) -> u64 {
    for r in p.records.iter() {
        if r.account == account {
            return r.staked_amount;
        }
    }
    0
}

fn claimed_of(p: &Pool, account: u64) -> u64 {
    for r in p.records.iter() {
        if r.account == account {
            return r.claimed_amount;
        }
    }
    0
}

#[test]
fn stake_limits_scenario() {
    // min_stake = 10, max_stake = 1000, max_capacity = 5000
    let mut p = Pool::configure(continuous_config()).unwrap();
    let r = p.stake(42, 5, 10, 1_000_000);
    assert_eq!(r, Ok(TokenMovement::PullFromCaller { amount: 10 }));
    assert_eq!(p.state.total_staked, 10);
    let r = p.stake(42, 6, 5, 1_000_000);
    assert_eq!(r, Err(Error::AmountLimits));
    assert_eq!(p.state.total_staked, 10);
}

#[test]
fn reward_rate_blending_scenario() {
    // duration = 100: 1000 at t=0 gives rate 10; re-funding 500 at t=50
    // blends the 500 still undistributed: (500 + 50*10) / 100 = 10.
    let mut p = Pool::configure(continuous_config()).unwrap();
    let r = p.notify_reward_amount(7, 0, 1000, 1_000_000);
    assert_eq!(r, Ok(TokenMovement::PullFromCaller { amount: 1000 }));
    let rate = match p.state.accrual {
        AccrualState::Continuous(ca) => ca.reward_rate,
        _ => unreachable!(),
    };
    assert_eq!(rate, 10);
    let r = p.notify_reward_amount(7, 50, 500, 1_000_000);
    assert_eq!(r, Ok(TokenMovement::PullFromCaller { amount: 500 }));
    let (rate, finish) = match p.state.accrual {
        AccrualState::Continuous(ca) => (ca.reward_rate, ca.finish_at),
        _ => unreachable!(),
    };
    assert_eq!(rate, 10);
    assert_eq!(finish, 150);
}

#[test]
fn utilization_apr_scenario() {
    // max_cap = 1000, min_apr = 5, max_apr = 15; utilization 50% gives
    // apr = 5 + (15 - 5) * (100 - 50) / 100 = 10.
    let mut p = Pool::configure(snapshot_config(0)).unwrap();
    p.notify(7, 1_000_000).unwrap();
    let r = p.stake(42, 5, 500, 1_000_000);
    assert_eq!(r, Ok(TokenMovement::PullFromCaller { amount: 500 }));
    let apr = match p.state.accrual {
        AccrualState::Snapshot(sa) => sa.current_apr,
        _ => unreachable!(),
    };
    assert_eq!(apr, 10);
}

#[test]
fn unstake_lock_scenario() {
    // deposit_end_time = 100, lock_period = 200: withdrawal before t=300
    // is rejected; at t=300 the principal comes back and the record zeroes.
    let mut p = Pool::configure(snapshot_config(12)).unwrap();
    p.notify(7, 1_000_000).unwrap();
    p.stake(42, 5, 100, 1_000_000).unwrap();
    let r = p.unstake(42, 299, None);
    assert_eq!(r, Err(Error::StillLockPeriod));
    assert_eq!(staked_of(&p, 42), 100);
    let r = p.unstake(42, 300, None);
    assert_eq!(r, Ok(TokenMovement::PayToCaller { principal: 100, reward: 0 }));
    assert_eq!(staked_of(&p, 42), 0);
    assert_eq!(p.state.total_staked, 0);
}

#[test]
fn snapshot_funding_pulls_prize() {
    // prize = max_capacity * fixed_apr / 100 = 1000 * 12 / 100 = 120
    let mut p = Pool::configure(snapshot_config(12)).unwrap();
    let r = p.notify(7, 1_000_000);
    assert_eq!(r, Ok(TokenMovement::PullFromCaller { amount: 120 }));
    assert!(p.state.notified);
    assert_eq!(p.state.total_reward_reserve, 120);
    assert_eq!(p.state.total_funded, 120);
}

#[test]
fn snapshot_claim_pays_once() {
    let mut p = Pool::configure(snapshot_config(12)).unwrap();
    p.notify(7, 1_000_000).unwrap();
    p.stake(42, 5, 100, 1_000_000).unwrap();
    let r = p.claim(42, 299);
    assert_eq!(r, Err(Error::StillLockPeriod));
    let r = p.claim(42, 300);
    // reward = 100 * 12 / 100 = 12
    assert_eq!(r, Ok(TokenMovement::PayToCaller { principal: 0, reward: 12 }));
    assert_eq!(claimed_of(&p, 42), 12);
    assert_eq!(p.state.total_reward_reserve, 108);
    let r = p.claim(42, 301);
    assert_eq!(r, Err(Error::AlreadyClaimed));
}

#[test]
fn continuous_accrual_and_claim() {
    let mut p = Pool::configure(continuous_config()).unwrap();
    p.notify_reward_amount(7, 0, 1000, 1_000_000).unwrap();
    p.stake(42, 10, 100, 1_000_000).unwrap();
    // from t=10 to t=20 the pool accrues 10 * 10 = 100, all owed to the
    // single staker
    assert_eq!(p.earned(42, 20), 100);
    let r = p.claim(42, 20);
    assert_eq!(r, Ok(TokenMovement::PayToCaller { principal: 0, reward: 100 }));
    assert_eq!(p.state.total_reward_reserve, 900);
    assert_eq!(claimed_of(&p, 42), 100);
    // nothing more accrues at the same instant
    assert_eq!(p.earned(42, 20), 0);
}

#[test]
fn continuous_unstake_pays_accrued_reward() {
    let mut p = Pool::configure(continuous_config()).unwrap();
    p.notify_reward_amount(7, 0, 1000, 1_000_000).unwrap();
    p.stake(42, 0, 100, 1_000_000).unwrap();
    // lock expires at 1000 + 50; the cycle ended at t=100, so the whole
    // 1000 accrued to the only staker
    let r = p.unstake(42, 1050, None);
    assert_eq!(r, Ok(TokenMovement::PayToCaller { principal: 100, reward: 1000 }));
    assert_eq!(p.state.total_staked, 0);
    assert_eq!(p.state.total_reward_reserve, 0);
}

#[test]
fn partial_unstake_rules() {
    let mut p = Pool::configure(continuous_config()).unwrap();
    p.stake(42, 0, 100, 1_000_000).unwrap();
    let r = p.unstake(42, 1050, Some(0));
    assert_eq!(r, Err(Error::AmountIsZero));
    let r = p.unstake(42, 1050, Some(200));
    assert_eq!(r, Err(Error::InsufficientStakeBalance));
    // leaving 0 < 5 < min_stake stranded is rejected
    let r = p.unstake(42, 1050, Some(95));
    assert_eq!(r, Err(Error::AmountLimits));
    let r = p.unstake(42, 1050, Some(40));
    assert_eq!(r, Ok(TokenMovement::PayToCaller { principal: 40, reward: 0 }));
    assert_eq!(staked_of(&p, 42), 60);
}

#[test]
fn stake_admission_errors() {
    let mut p = Pool::configure(continuous_config()).unwrap();
    assert_eq!(p.stake(42, 5, 0, 1000), Err(Error::AmountIsZero));
    assert_eq!(p.stake(42, 5, 3, 1000), Err(Error::AmountLimits));
    assert_eq!(p.stake(42, 5, 10, 3), Err(Error::InsufficientBalance));
    assert_eq!(p.stake(42, 1001, 10, 1000), Err(Error::StakeIsCompleted));
    p.stake(42, 5, 1000, 1_000_000).unwrap();
    assert_eq!(p.stake(42, 5, 10, 1000), Err(Error::AmountLimits));
    // four more accounts fill the pool to its 5000 capacity
    for a in 1..5u64 {
        p.stake(a, 5, 1000, 1_000_000).unwrap();
    }
    assert_eq!(p.stake(99, 5, 10, 1000), Err(Error::MaxCapacityError));
}

#[test]
fn owner_check() {
    let cfg = continuous_config();
    assert_eq!(stake::admission::only_owner(&cfg, 7), Ok(()));
    assert_eq!(stake::admission::only_owner(&cfg, 8), Err(Error::AdminError));
}

#[test]
fn zero_amount_checked_before_window() {
    let mut p = Pool::configure(continuous_config()).unwrap();
    assert_eq!(p.stake(42, 5000, 0, 1000), Err(Error::AmountIsZero));
}

#[test]
fn window_not_started() {
    let mut cfg = continuous_config();
    cfg.deposit_start_time = 100;
    let mut p = Pool::configure(cfg).unwrap();
    assert_eq!(p.stake(42, 50, 10, 1000), Err(Error::StakeIsNotStarted));
}

#[test]
fn snapshot_gates() {
    let mut p = Pool::configure(snapshot_config(0)).unwrap();
    assert_eq!(p.stake(42, 5, 100, 1000), Err(Error::WaitingNotify));
    assert_eq!(p.claim(42, 500), Err(Error::WaitingNotify));
    assert_eq!(p.notify(8, 1_000_000), Err(Error::AdminError));
    assert_eq!(p.notify(7, 10), Err(Error::InsufficientBalance));
    p.notify(7, 1_000_000).unwrap();
    assert_eq!(p.notify(7, 1_000_000), Err(Error::AlreadyNotified));
    assert_eq!(p.claim(42, 500), Err(Error::StakeAmountIsZero));
}

#[test]
fn continuous_funding_gates() {
    let mut p = Pool::configure(continuous_config()).unwrap();
    assert_eq!(p.notify_reward_amount(8, 0, 1000, 1_000_000), Err(Error::AdminError));
    // 50 / duration 100 rounds to a zero rate
    assert_eq!(p.notify_reward_amount(7, 0, 50, 1_000_000), Err(Error::RewardRateError));
    assert_eq!(p.notify_reward_amount(7, 0, 1000, 5), Err(Error::InsufficientBalance));
}

#[test]
fn malformed_configuration_rejected() {
    let mut cfg = continuous_config();
    cfg.deposit_start_time = 2000;
    assert!(matches!(Pool::configure(cfg), Err(Error::FatalError)));
    let mut cfg = continuous_config();
    cfg.duration = 0;
    assert!(matches!(Pool::configure(cfg), Err(Error::FatalError)));
    let mut cfg = snapshot_config(0);
    cfg.min_apr = 20;
    assert!(matches!(Pool::configure(cfg), Err(Error::FatalError)));
}

#[test]
fn unstake_without_stake_rejected() {
    let mut p = Pool::configure(continuous_config()).unwrap();
    assert_eq!(p.unstake(42, 1050, None), Err(Error::InsufficientStakeBalance));
}

#[test]
fn ledger_sums_conserved() {
    // over a mixed run, the records sum to the recorded total, the total
    // stays within capacity, and payouts plus reserve balance the funding
    let mut p = Pool::configure(continuous_config()).unwrap();
    p.notify_reward_amount(7, 0, 1000, 1_000_000).unwrap();
    p.stake(1, 0, 300, 1_000_000).unwrap();
    p.stake(2, 5, 100, 1_000_000).unwrap();
    p.stake(1, 10, 50, 1_000_000).unwrap();
    p.claim(2, 60).unwrap();
    p.unstake(1, 1050, Some(200)).unwrap();
    let staked_sum: u64 = p.records.iter().map(|r| r.staked_amount).sum();
    let claimed_sum: u64 = p.records.iter().map(|r| r.claimed_amount).sum();
    assert_eq!(staked_sum, p.state.total_staked);
    assert!(p.state.total_staked <= p.config.max_capacity);
    assert_eq!(
        claimed_sum + p.state.total_reward_reserve,
        p.state.total_funded
    );
    assert!(claimed_sum <= p.state.total_funded);
}

#[test]
fn elapsed_time_apr_policy() {
    let mut cfg = snapshot_config(0);
    cfg.policy = RewardPolicy::SnapshotAprByElapsedTime;
    let mut p = Pool::configure(cfg).unwrap();
    p.notify(7, 1_000_000).unwrap();
    // elapsed 100 of a 200 lock period: apr = 5 + (15 - 5) * 50 / 100 = 10
    p.stake(42, 100, 100, 1_000_000).unwrap();
    let apr = match p.state.accrual {
        AccrualState::Snapshot(sa) => sa.current_apr,
        _ => unreachable!(),
    };
    assert_eq!(apr, 10);
}
