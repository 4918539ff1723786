//! The pool as a whole: configuration, global state and the complete
//! per-account ledger, with the pool-wide invariants — staked amounts
//! summing to the recorded total, the total within capacity, and payouts
//! plus reserve balancing the funding — proved across every operation.
//!
//! The on-chain shell, which can address only one account's record per
//! call, drives the transitions in `engine` directly; this type is the
//! same engine composed with a complete ledger, for callers that hold one.

use vstd::prelude::*;
use crate::admission::{spec_stake_check, spec_unstake_check};
use crate::config::PoolConfig;
use crate::continuous;
use crate::continuous::{spec_blended_rate, spec_earned, spec_notify_accrual, spec_update};
use crate::engine;
use crate::engine::spec_snapshot_claim;
use crate::engine::{clock_ok, rec_ok, state_ok};
use crate::errors::Error;
use crate::ledger::{
    lemma_element_bounds, lemma_sum_push, lemma_sum_update, lemma_sums_nonneg, sum_claimed,
    sum_staked,
};
use crate::snapshot::{spec_notify_apr, spec_prize};
use crate::state::{AccrualState, PoolState, StakeRecord, TokenMovement};

verus! {

/// A staking pool with its full ledger.
pub struct Pool {
    /// Immutable parameters.
    pub config: PoolConfig,
    /// Global totals and accrual state.
    pub state: PoolState,
    /// One entry per account that ever staked; never shrinks.
    pub records: Vec<StakeRecord>,
}

impl Pool {
    /// Fresh ledger entry for `account`, as a first stake creates it.
    pub open spec fn spec_fresh(account: u64) -> StakeRecord {
        StakeRecord {
            account,
            staked_amount: 0,
            reward_per_token_paid: 0,
            pending_reward: 0,
            claimed_amount: 0,
        }
    }

    /// Whether the ledger holds an entry for `account`.
    pub open spec fn has_record(self, account: u64) -> bool {
        exists|i: int|
            0 <= i < self.records@.len() && #[trigger] self.records@[i].account == account
    }

    /// The account's ledger entry, or a fresh one if it never staked.
    pub open spec fn spec_record_of(self, account: u64) -> StakeRecord {
        if self.has_record(account) {
            self.records@[choose|i: int|
                0 <= i < self.records@.len() && #[trigger] self.records@[i].account == account]
        } else {
            Pool::spec_fresh(account)
        }
    }

    /// Pool-wide well-formedness: valid configuration and state, ledger
    /// sums matching the recorded totals, one entry per account, and each
    /// entry valid against the state.
    pub open spec fn wf(self) -> bool {
        &&& self.config.wf()
        &&& state_ok(self.config, self.state)
        &&& sum_staked(self.records@) == self.state.total_staked
        &&& sum_claimed(self.records@) + self.state.total_reward_reserve
            == self.state.total_funded
        &&& forall|i: int, j: int|
            #![trigger self.records@[i].account, self.records@[j].account]
            0 <= i < j < self.records@.len() ==> self.records@[i].account
                != self.records@[j].account
        &&& forall|i: int|
            0 <= i < self.records@.len() ==> rec_ok(
                self.config,
                self.state,
                #[trigger] self.records@[i],
            )
        &&& match self.state.accrual {
            AccrualState::Continuous(ca) => continuous::sum_entitlement(
                self.config,
                ca,
                self.records@,
            ) + continuous::outstanding(ca) * continuous::spec_scale(self.config)
                <= self.state.total_funded * continuous::spec_scale(self.config),
            AccrualState::Snapshot(_) => true,
        }
    }

    /// A fresh entry is valid against any valid state.
    proof fn lemma_fresh_rec_ok(cfg: PoolConfig, st: PoolState, account: u64)
        requires
            cfg.wf(),
            state_ok(cfg, st),
        ensures
            rec_ok(cfg, st, Pool::spec_fresh(account)),
    {
        let fresh = Pool::spec_fresh(account);
        match st.accrual {
            AccrualState::Continuous(ca) => {
                continuous::lemma_scale_bounds(cfg);
                vstd::arithmetic::mul::lemma_mul_basics(continuous::spec_scale(cfg));
                vstd::arithmetic::mul::lemma_mul_basics(
                    ca.reward_per_token_stored - fresh.reward_per_token_paid,
                );
            },
            AccrualState::Snapshot(_) => {},
        }
    }

    /// An entry found at an index is the account's unique entry.
    proof fn lemma_record_of_found(self, account: u64, i: int)
        requires
            self.wf(),
            0 <= i < self.records@.len(),
            self.records@[i].account == account,
        ensures
            self.spec_record_of(account) == self.records@[i],
    {
        assert(self.has_record(account));
        let j = choose|j: int|
            0 <= j < self.records@.len() && #[trigger] self.records@[j].account == account;
        if i != j {
            assert(self.records@[i].account != self.records@[j].account);
        }
    }

    /// Index of the account's ledger entry, if one exists.
    fn find(&self, account: u64) -> (r: Option<usize>)
        ensures
            match r {
                Some(i) => 0 <= i < self.records@.len() && self.records@[i as int].account
                    == account,
                None => !self.has_record(account),
            },
    {
        let n = self.records.len();
        let mut i: usize = 0;
        while i < n
            invariant
                n == self.records@.len(),
                i <= n,
                forall|j: int| 0 <= j < i ==> #[trigger] self.records@[j].account != account,
            decreases n - i,
        {
            if self.records[i].account == account {
                return Some(i);
            }
            i = i + 1;
        }
        None
    }

    /// Validates the parameters and creates the empty pool, the caller
    /// recorded as owner inside the configuration.
    pub fn configure(cfg: PoolConfig) -> (r: Result<Pool, Error>)
        ensures
            cfg.wf() ==> (r matches Ok(p) && p.config == cfg && p.state == PoolState::spec_initial(
                cfg,
            ) && p.records@.len() == 0 && p.wf()),
            !cfg.wf() ==> r == Err::<Pool, Error>(Error::FatalError),
    {
        if !cfg.check() {
            return Err(Error::FatalError);
        }
        let state = PoolState::initial(&cfg);
        let pool = Pool { config: cfg, state, records: Vec::new() };
        proof {
            match pool.state.accrual {
                AccrualState::Continuous(ca) => {
                    continuous::lemma_scale_bounds(cfg);
                    vstd::arithmetic::mul::lemma_mul_basics(continuous::spec_scale(cfg));
                    assert(continuous::outstanding(ca) == 0);
                    assert(continuous::sum_entitlement(cfg, ca, pool.records@) == 0);
                },
                AccrualState::Snapshot(_) => {},
            }
        }
        Ok(pool)
    }

    /// Stakes `amount` for `caller`: the admission checks,
    /// then the accrual refresh, the ledger growth, and a pull of the
    /// amount from the caller.
    pub fn stake(&mut self, caller: u64, now: u64, amount: u64, caller_balance: u64) -> (r: Result<
        TokenMovement,
        Error,
    >)
        requires
            old(self).wf(),
            clock_ok(old(self).state, now),
        ensures
            final(self).wf(),
            final(self).config == old(self).config,
            ({
                let rec0 = old(self).spec_record_of(caller);
                let check = spec_stake_check(
                    old(self).config,
                    old(self).state.notified,
                    old(self).state.total_staked,
                    rec0.staked_amount,
                    now,
                    amount,
                    caller_balance,
                );
                match check {
                    Err(e) => r == Err::<TokenMovement, Error>(e) && *final(self) == *old(self),
                    Ok(_) => {
                        &&& r == Ok::<TokenMovement, Error>(
                            TokenMovement::PullFromCaller { amount },
                        )
                        &&& final(self).state.total_staked == old(self).state.total_staked + amount
                        &&& final(self).spec_record_of(caller).staked_amount == rec0.staked_amount
                            + amount
                        &&& final(self).state.total_funded == old(self).state.total_funded
                        &&& final(self).state.total_reward_reserve == old(
                            self,
                        ).state.total_reward_reserve
                        &&& forall|j: int|
                            0 <= j < old(self).records@.len() && old(self).records@[j].account
                                != caller ==> final(self).records@[j] == #[trigger] old(
                                self,
                            ).records@[j]
                    },
                }
            }),
    {
        let ghost self0 = *self;
        match self.find(caller) {
            Some(i) => {
                let mut stl = self.state;
                let mut recl = self.records[i];
                proof {
                    lemma_element_bounds(self.records@, i as int);
                    self0.lemma_record_of_found(caller, i as int);
                }
                let res = engine::stake(&self.config, &mut stl, &mut recl, now, amount, caller_balance);
                match res {
                    Err(e) => Err(e),
                    Ok(mv) => {
                        self.records.set(i, recl);
                        self.state = stl;
                        proof {
                            if self0.config.policy is ContinuousIndex {
                                Pool::lemma_touched_entitlement(
                                    self0,
                                    self0.records@[i as int],
                                    recl,
                                    now,
                                );
                            }
                            self.lemma_after_touch(self0, i as int, recl, stl, now);
                            self.lemma_record_of_found(caller, i as int);
                        }
                        Ok(mv)
                    },
                }
            },
            None => {
                let mut stl = self.state;
                let mut recl = StakeRecord::new(caller);
                proof {
                    Pool::lemma_fresh_rec_ok(self.config, self.state, caller);
                }
                let res = engine::stake(&self.config, &mut stl, &mut recl, now, amount, caller_balance);
                match res {
                    Err(e) => Err(e),
                    Ok(mv) => {
                        self.records.push(recl);
                        self.state = stl;
                        proof {
                            if self0.config.policy is ContinuousIndex {
                                Pool::lemma_touched_entitlement(
                                    self0,
                                    Pool::spec_fresh(caller),
                                    recl,
                                    now,
                                );
                            }
                            self.lemma_after_push(self0, recl, stl, now);
                            self.lemma_record_of_found(caller, self0.records@.len() as int);
                        }
                        Ok(mv)
                    },
                }
            },
        }
    }

    /// A record taken through refresh-and-accrue never gains entitlement:
    /// what moves into `pending_reward` (or on into `claimed_amount`) is
    /// taken out of its accruing share; a record grown from a fresh entry
    /// carries none at all.
    proof fn lemma_touched_entitlement(prev: Pool, rec0: StakeRecord, recl: StakeRecord, now: u64)
        requires
            prev.wf(),
            prev.config.policy is ContinuousIndex,
            clock_ok(prev.state, now),
            rec_ok(prev.config, prev.state, rec0),
            ({
                let ca2 = spec_update(
                    prev.config,
                    prev.state.accrual->Continuous_0,
                    prev.state.total_staked,
                    now,
                );
                &&& recl.reward_per_token_paid == ca2.reward_per_token_stored
                &&& recl.pending_reward + recl.claimed_amount == spec_earned(
                    prev.config,
                    ca2,
                    rec0,
                ) + rec0.claimed_amount
            }),
        ensures
            ({
                let ca2 = spec_update(
                    prev.config,
                    prev.state.accrual->Continuous_0,
                    prev.state.total_staked,
                    now,
                );
                &&& continuous::entitlement(prev.config, ca2, recl) <= continuous::entitlement(
                    prev.config,
                    ca2,
                    rec0,
                )
                &&& rec0.staked_amount == 0 && rec0.pending_reward == 0 && rec0.claimed_amount
                    == 0 ==> continuous::entitlement(prev.config, ca2, recl) <= 0
            }),
    {
        let cfg = prev.config;
        let ca = prev.state.accrual->Continuous_0;
        let ca2 = spec_update(cfg, ca, prev.state.total_staked, now);
        continuous::lemma_scale_bounds(cfg);
        let scale = continuous::spec_scale(cfg);
        continuous::lemma_update_preserves_accrual_ok(
            cfg,
            ca,
            prev.state.total_staked,
            prev.state.total_funded,
            now,
        );
        continuous::lemma_update_preserves_record_ok(
            cfg,
            ca,
            prev.state.total_staked,
            prev.state.total_funded,
            now,
            rec0,
        );
        continuous::lemma_accrue_entitlement(cfg, ca2, prev.state.total_funded, rec0);
        assert(ca2.reward_per_token_stored - recl.reward_per_token_paid == 0);
        assert(recl.staked_amount * (ca2.reward_per_token_stored - recl.reward_per_token_paid)
            == 0);
        assert(continuous::entitlement(cfg, ca2, recl) == (recl.pending_reward
            + recl.claimed_amount) * scale);
        assert(continuous::entitlement(cfg, ca2, recl) == (spec_earned(cfg, ca2, rec0)
            + rec0.claimed_amount) * scale);
        if rec0.staked_amount == 0 && rec0.pending_reward == 0 && rec0.claimed_amount == 0 {
            vstd::arithmetic::mul::lemma_mul_basics(
                ca2.reward_per_token_stored - rec0.reward_per_token_paid,
            );
            assert(rec0.staked_amount * (ca2.reward_per_token_stored
                - rec0.reward_per_token_paid) == 0);
            vstd::arithmetic::div_mod::lemma_div_basics(scale);
            assert(continuous::spec_earned_delta(cfg, ca2, rec0) == 0);
            vstd::arithmetic::mul::lemma_mul_basics(scale);
            assert(continuous::entitlement(cfg, ca2, recl) == 0int * scale);
        }
    }

    /// Re-establishes the pool invariants after one existing entry was
    /// taken through a transition that left every other quantity of the
    /// state as the transition contracts describe.
    proof fn lemma_after_touch(
        self,
        prev: Pool,
        i: int,
        recl: StakeRecord,
        stl: PoolState,
        now: u64,
    )
        requires
            prev.wf(),
            0 <= i < prev.records@.len(),
            clock_ok(prev.state, now),
            state_ok(prev.config, stl),
            rec_ok(prev.config, stl, recl),
            recl.account == prev.records@[i].account,
            self.config == prev.config,
            self.state == stl,
            self.records@ == prev.records@.update(i, recl),
            stl.total_funded == prev.state.total_funded,
            stl.notified == prev.state.notified,
            stl.total_staked - recl.staked_amount == prev.state.total_staked - prev.records@[i].staked_amount,
            stl.total_reward_reserve - prev.state.total_reward_reserve == -(recl.claimed_amount
                - prev.records@[i].claimed_amount),
            match prev.state.accrual {
                AccrualState::Continuous(ca) => stl.accrual == AccrualState::Continuous(
                    continuous::spec_update(prev.config, ca, prev.state.total_staked, now),
                ) && continuous::entitlement(
                    prev.config,
                    continuous::spec_update(prev.config, ca, prev.state.total_staked, now),
                    recl,
                ) <= continuous::entitlement(
                    prev.config,
                    continuous::spec_update(prev.config, ca, prev.state.total_staked, now),
                    prev.records@[i],
                ),
                AccrualState::Snapshot(_) => stl.accrual is Snapshot,
            },
        ensures
            self.wf(),
    {
        lemma_sum_update(prev.records@, i, recl);
        match prev.state.accrual {
            AccrualState::Continuous(ca) => {
                let ca2 = continuous::spec_update(prev.config, ca, prev.state.total_staked, now);
                continuous::lemma_update_preserves_sum(
                    prev.config,
                    ca,
                    prev.state.total_staked,
                    prev.state.total_funded,
                    now,
                    prev.records@,
                );
                continuous::lemma_sum_entitlement_update(
                    prev.config,
                    ca2,
                    prev.records@,
                    i,
                    recl,
                );
            },
            AccrualState::Snapshot(_) => {},
        }
        assert(sum_staked(self.records@) == stl.total_staked);
        assert(sum_claimed(self.records@) + stl.total_reward_reserve == stl.total_funded);
        assert(forall|a: int|
            0 <= a < self.records@.len() ==> #[trigger] self.records@[a].account
                == prev.records@[a].account);
        assert forall|j: int| 0 <= j < self.records@.len() implies rec_ok(
            self.config,
            self.state,
            #[trigger] self.records@[j],
        ) by {
            lemma_element_bounds(self.records@, j);
            lemma_sums_nonneg(self.records@);
            assert(self.records@[j].staked_amount <= stl.total_staked);
            assert(self.records@[j].claimed_amount + stl.total_reward_reserve
                <= stl.total_funded);
            if j != i {
                let rj = prev.records@[j];
                assert(rec_ok(prev.config, prev.state, rj));
                lemma_element_bounds(prev.records@, j);
                match prev.state.accrual {
                    AccrualState::Continuous(ca) => {
                        continuous::lemma_update_preserves_record_ok(
                            prev.config,
                            ca,
                            prev.state.total_staked,
                            prev.state.total_funded,
                            now,
                            rj,
                        );
                    },
                    AccrualState::Snapshot(_) => {},
                }
            }
        }
    }

    /// Re-establishes the pool invariants after a fresh entry was taken
    /// through a transition and appended to the ledger.
    proof fn lemma_after_push(self, prev: Pool, recl: StakeRecord, stl: PoolState, now: u64)
        requires
            prev.wf(),
            !prev.has_record(recl.account),
            clock_ok(prev.state, now),
            state_ok(prev.config, stl),
            rec_ok(prev.config, stl, recl),
            self.config == prev.config,
            self.state == stl,
            self.records@ == prev.records@.push(recl),
            stl.total_funded == prev.state.total_funded,
            stl.notified == prev.state.notified,
            stl.total_staked - recl.staked_amount == prev.state.total_staked,
            stl.total_reward_reserve - prev.state.total_reward_reserve == -(recl.claimed_amount as int),
            match prev.state.accrual {
                AccrualState::Continuous(ca) => stl.accrual == AccrualState::Continuous(
                    continuous::spec_update(prev.config, ca, prev.state.total_staked, now),
                ) && continuous::entitlement(
                    prev.config,
                    continuous::spec_update(prev.config, ca, prev.state.total_staked, now),
                    recl,
                ) <= 0,
                AccrualState::Snapshot(_) => stl.accrual is Snapshot,
            },
        ensures
            self.wf(),
    {
        lemma_sum_push(prev.records@, recl);
        match prev.state.accrual {
            AccrualState::Continuous(ca) => {
                let ca2 = continuous::spec_update(prev.config, ca, prev.state.total_staked, now);
                continuous::lemma_update_preserves_sum(
                    prev.config,
                    ca,
                    prev.state.total_staked,
                    prev.state.total_funded,
                    now,
                    prev.records@,
                );
                continuous::lemma_sum_entitlement_push(prev.config, ca2, prev.records@, recl);
            },
            AccrualState::Snapshot(_) => {},
        }
        assert(sum_staked(self.records@) == stl.total_staked);
        assert(sum_claimed(self.records@) + stl.total_reward_reserve == stl.total_funded);
        assert forall|j: int| 0 <= j < self.records@.len() implies rec_ok(
            self.config,
            self.state,
            #[trigger] self.records@[j],
        ) by {
            lemma_element_bounds(self.records@, j);
            lemma_sums_nonneg(self.records@);
            assert(self.records@[j].staked_amount <= stl.total_staked);
            assert(self.records@[j].claimed_amount + stl.total_reward_reserve
                <= stl.total_funded);
            if j < prev.records@.len() {
                let rj = prev.records@[j];
                assert(rec_ok(prev.config, prev.state, rj));
                lemma_element_bounds(prev.records@, j);
                match prev.state.accrual {
                    AccrualState::Continuous(ca) => {
                        continuous::lemma_update_preserves_record_ok(
                            prev.config,
                            ca,
                            prev.state.total_staked,
                            prev.state.total_funded,
                            now,
                            rj,
                        );
                    },
                    AccrualState::Snapshot(_) => {},
                }
            }
        }
    }

    /// Re-establishes the pool invariants after a state-only refresh that
    /// left every total and every record as they were.
    proof fn lemma_after_refresh(self, prev: Pool, stl: PoolState, now: u64)
        requires
            prev.wf(),
            clock_ok(prev.state, now),
            state_ok(prev.config, stl),
            self.config == prev.config,
            self.state == stl,
            self.records@ == prev.records@,
            stl.total_staked == prev.state.total_staked,
            stl.total_funded == prev.state.total_funded,
            stl.total_reward_reserve == prev.state.total_reward_reserve,
            stl.notified == prev.state.notified,
            match prev.state.accrual {
                AccrualState::Continuous(ca) => stl.accrual == AccrualState::Continuous(
                    spec_update(prev.config, ca, prev.state.total_staked, now),
                ),
                AccrualState::Snapshot(_) => stl.accrual == prev.state.accrual,
            },
        ensures
            self.wf(),
    {
        match prev.state.accrual {
            AccrualState::Continuous(ca) => {
                continuous::lemma_update_preserves_sum(
                    prev.config,
                    ca,
                    prev.state.total_staked,
                    prev.state.total_funded,
                    now,
                    prev.records@,
                );
            },
            AccrualState::Snapshot(_) => {},
        }
        assert forall|j: int| 0 <= j < self.records@.len() implies rec_ok(
            self.config,
            self.state,
            #[trigger] self.records@[j],
        ) by {
            let rj = prev.records@[j];
            assert(rec_ok(prev.config, prev.state, rj));
            lemma_element_bounds(prev.records@, j);
            match prev.state.accrual {
                AccrualState::Continuous(ca) => {
                    continuous::lemma_update_preserves_record_ok(
                        prev.config,
                        ca,
                        prev.state.total_staked,
                        prev.state.total_funded,
                        now,
                        rj,
                    );
                },
                AccrualState::Snapshot(_) => {},
            }
        }
    }

    /// Re-establishes the pool invariants after the one-shot snapshot
    /// funding step.
    proof fn lemma_after_snapshot_funding(self, prev: Pool, stl: PoolState)
        requires
            prev.wf(),
            prev.config.is_snapshot(),
            !prev.state.notified,
            state_ok(prev.config, stl),
            self.config == prev.config,
            self.state == stl,
            self.records@ == prev.records@,
            stl.total_staked == 0,
            stl.notified,
            stl.total_reward_reserve == stl.total_funded,
        ensures
            self.wf(),
    {
        crate::ledger::lemma_sum_claimed_zero(prev.records@);
        assert forall|j: int| 0 <= j < self.records@.len() implies rec_ok(
            self.config,
            self.state,
            #[trigger] self.records@[j],
        ) by {
            assert(rec_ok(prev.config, prev.state, prev.records@[j]));
        }
    }

    /// Re-establishes the pool invariants after funding a continuous pool.
    proof fn lemma_after_continuous_funding(
        self,
        prev: Pool,
        stl: PoolState,
        now: u64,
        new_reward: u64,
    )
        requires
            prev.wf(),
            prev.config.policy is ContinuousIndex,
            clock_ok(prev.state, now),
            state_ok(prev.config, stl),
            prev.state.total_funded + new_reward <= u64::MAX,
            now + prev.config.duration <= u64::MAX,
            self.config == prev.config,
            self.state == stl,
            self.records@ == prev.records@,
            stl.total_staked == prev.state.total_staked,
            stl.total_funded == prev.state.total_funded + new_reward,
            stl.total_reward_reserve == prev.state.total_reward_reserve + new_reward,
            stl.accrual == AccrualState::Continuous(
                spec_notify_accrual(
                    prev.config,
                    spec_update(
                        prev.config,
                        prev.state.accrual->Continuous_0,
                        prev.state.total_staked,
                        now,
                    ),
                    now,
                    new_reward,
                ),
            ),
        ensures
            self.wf(),
    {
        let ca = prev.state.accrual->Continuous_0;
        let ca2 = spec_update(prev.config, ca, prev.state.total_staked, now);
        let ca3 = spec_notify_accrual(prev.config, ca2, now, new_reward);
        continuous::lemma_update_preserves_sum(
            prev.config,
            ca,
            prev.state.total_staked,
            prev.state.total_funded,
            now,
            prev.records@,
        );
        continuous::lemma_update_preserves_accrual_ok(
            prev.config,
            ca,
            prev.state.total_staked,
            prev.state.total_funded,
            now,
        );
        continuous::lemma_notify_preserves_accrual_ok(
            prev.config,
            ca2,
            prev.state.total_funded,
            now,
            new_reward,
        );
        continuous::lemma_sum_entitlement_index_shift(prev.config, ca2, ca3, prev.records@, 0);
        vstd::arithmetic::mul::lemma_mul_basics(crate::ledger::sum_staked(prev.records@));
        continuous::lemma_scale_bounds(prev.config);
        vstd::arithmetic::mul::lemma_mul_inequality(
            continuous::outstanding(ca3),
            new_reward + continuous::outstanding(ca2),
            continuous::spec_scale(prev.config),
        );
        vstd::arithmetic::mul::lemma_mul_is_distributive_add_other_way(
            continuous::spec_scale(prev.config),
            new_reward as int,
            continuous::outstanding(ca2),
        );
        vstd::arithmetic::mul::lemma_mul_is_distributive_add_other_way(
            continuous::spec_scale(prev.config),
            prev.state.total_funded as int,
            new_reward as int,
        );
        assert forall|j: int| 0 <= j < self.records@.len() implies rec_ok(
            self.config,
            self.state,
            #[trigger] self.records@[j],
        ) by {
            let rj = prev.records@[j];
            assert(rec_ok(prev.config, prev.state, rj));
            lemma_element_bounds(prev.records@, j);
            continuous::lemma_update_preserves_accrual_ok(
                prev.config,
                ca,
                prev.state.total_staked,
                prev.state.total_funded,
                now,
            );
            continuous::lemma_update_preserves_record_ok(
                prev.config,
                ca,
                prev.state.total_staked,
                prev.state.total_funded,
                now,
                rj,
            );
            continuous::lemma_notify_preserves_ok(
                prev.config,
                ca2,
                prev.state.total_funded,
                now,
                new_reward,
                rj,
            );
        }
    }

    /// The reward owed to a valid record after a refresh at `now` is
    /// non-negative and, together with what the record already claimed,
    /// within the funded total.
    proof fn lemma_owed_bounds(prev: Pool, rec0: StakeRecord, now: u64)
        requires
            prev.wf(),
            prev.config.policy is ContinuousIndex,
            clock_ok(prev.state, now),
            rec_ok(prev.config, prev.state, rec0),
        ensures
            ({
                let ca2 = spec_update(
                    prev.config,
                    prev.state.accrual->Continuous_0,
                    prev.state.total_staked,
                    now,
                );
                let owed = spec_earned(prev.config, ca2, rec0);
                0 <= owed && owed + rec0.claimed_amount <= prev.state.total_funded
            }),
    {
        let ca = prev.state.accrual->Continuous_0;
        let ca2 = spec_update(prev.config, ca, prev.state.total_staked, now);
        continuous::lemma_update_preserves_accrual_ok(
            prev.config,
            ca,
            prev.state.total_staked,
            prev.state.total_funded,
            now,
        );
        continuous::lemma_update_preserves_record_ok(
            prev.config,
            ca,
            prev.state.total_staked,
            prev.state.total_funded,
            now,
            rec0,
        );
        continuous::lemma_record_bounds(prev.config, ca2, prev.state.total_funded, rec0);
    }

    /// Withdraws principal for `caller` after lock expiry; in the
    /// continuous model the accrued reward is paid out with it.
    pub fn unstake(&mut self, caller: u64, now: u64, request: Option<u64>) -> (r: Result<
        TokenMovement,
        Error,
    >)
        requires
            old(self).wf(),
            clock_ok(old(self).state, now),
        ensures
            final(self).wf(),
            final(self).config == old(self).config,
            ({
                let rec0 = old(self).spec_record_of(caller);
                let check = spec_unstake_check(old(self).config, now, rec0.staked_amount, request);
                match check {
                    Err(e) => r == Err::<TokenMovement, Error>(e) && *final(self) == *old(self),
                    Ok(a) => {
                        if old(self).config.policy is ContinuousIndex {
                            let ca2 = spec_update(
                                old(self).config,
                                old(self).state.accrual->Continuous_0,
                                old(self).state.total_staked,
                                now,
                            );
                            let owed = spec_earned(old(self).config, ca2, rec0);
                            if owed > old(self).state.total_reward_reserve {
                                r == Err::<TokenMovement, Error>(Error::InsufficientBalance)
                                    && *final(self) == *old(self)
                            } else {
                                &&& r == Ok::<TokenMovement, Error>(
                                    TokenMovement::PayToCaller {
                                        principal: a,
                                        reward: owed as u64,
                                    },
                                )
                                &&& final(self).state.total_staked == old(
                                    self,
                                ).state.total_staked - a
                                &&& final(self).state.total_reward_reserve == old(
                                    self,
                                ).state.total_reward_reserve - owed
                                &&& final(self).state.total_funded == old(self).state.total_funded
                                &&& final(self).spec_record_of(caller).staked_amount
                                    == rec0.staked_amount - a
                                &&& final(self).spec_record_of(caller).claimed_amount
                                    == rec0.claimed_amount + owed
                                &&& forall|j: int|
                                    0 <= j < old(self).records@.len() && old(
                                        self,
                                    ).records@[j].account != caller ==> final(self).records@[j]
                                        == #[trigger] old(self).records@[j]
                            }
                        } else {
                            &&& r == Ok::<TokenMovement, Error>(
                                TokenMovement::PayToCaller { principal: a, reward: 0 },
                            )
                            &&& final(self).state.total_staked == old(self).state.total_staked - a
                            &&& final(self).state.total_reward_reserve == old(
                                self,
                            ).state.total_reward_reserve
                            &&& final(self).state.total_funded == old(self).state.total_funded
                            &&& final(self).spec_record_of(caller).staked_amount
                                == rec0.staked_amount - a
                            &&& final(self).spec_record_of(caller).claimed_amount
                                == rec0.claimed_amount
                            &&& forall|j: int|
                                0 <= j < old(self).records@.len() && old(
                                    self,
                                ).records@[j].account != caller ==> final(self).records@[j]
                                    == #[trigger] old(self).records@[j]
                        }
                    },
                }
            }),
    {
        let ghost self0 = *self;
        match self.find(caller) {
            Some(i) => {
                let mut stl = self.state;
                let mut recl = self.records[i];
                proof {
                    lemma_element_bounds(self.records@, i as int);
                    self0.lemma_record_of_found(caller, i as int);
                }
                proof {
                    if self0.config.policy is ContinuousIndex {
                        Pool::lemma_owed_bounds(self0, recl, now);
                    }
                }
                let res = engine::unstake(&self.config, &mut stl, &mut recl, now, request);
                match res {
                    Err(e) => Err(e),
                    Ok(mv) => {
                        self.records.set(i, recl);
                        self.state = stl;
                        proof {
                            if self0.config.policy is ContinuousIndex {
                                Pool::lemma_touched_entitlement(
                                    self0,
                                    self0.records@[i as int],
                                    recl,
                                    now,
                                );
                            }
                            self.lemma_after_touch(self0, i as int, recl, stl, now);
                            self.lemma_record_of_found(caller, i as int);
                        }
                        Ok(mv)
                    },
                }
            },
            None => {
                let mut stl = self.state;
                let mut recl = StakeRecord::new(caller);
                proof {
                    Pool::lemma_fresh_rec_ok(self.config, self.state, caller);
                }
                let res = engine::unstake(&self.config, &mut stl, &mut recl, now, request);
                proof {
                    assert(res is Err);
                }
                res
            },
        }
    }

    /// Pays `caller` the reward owed without touching the
    /// staked principal.
    pub fn claim(&mut self, caller: u64, now: u64) -> (r: Result<TokenMovement, Error>)
        requires
            old(self).wf(),
            clock_ok(old(self).state, now),
        ensures
            final(self).wf(),
            final(self).config == old(self).config,
            old(self).config.policy is ContinuousIndex ==> ({
                let rec0 = old(self).spec_record_of(caller);
                let ca2 = spec_update(
                    old(self).config,
                    old(self).state.accrual->Continuous_0,
                    old(self).state.total_staked,
                    now,
                );
                let owed = spec_earned(old(self).config, ca2, rec0);
                if owed > old(self).state.total_reward_reserve {
                    r == Err::<TokenMovement, Error>(Error::InsufficientBalance) && *final(self)
                        == *old(self)
                } else {
                    &&& r == Ok::<TokenMovement, Error>(
                        TokenMovement::PayToCaller { principal: 0, reward: owed as u64 },
                    )
                    &&& final(self).state.total_staked == old(self).state.total_staked
                    &&& final(self).state.total_reward_reserve == old(
                        self,
                    ).state.total_reward_reserve - owed
                    &&& final(self).state.total_funded == old(self).state.total_funded
                    &&& final(self).spec_record_of(caller).staked_amount == rec0.staked_amount
                    &&& final(self).spec_record_of(caller).claimed_amount == rec0.claimed_amount
                        + owed
                    &&& forall|j: int|
                        0 <= j < old(self).records@.len() && old(self).records@[j].account
                            != caller ==> final(self).records@[j] == #[trigger] old(
                            self,
                        ).records@[j]
                }
            }),
            old(self).config.is_snapshot() ==> ({
                let rec0 = old(self).spec_record_of(caller);
                match spec_snapshot_claim(old(self).config, old(self).state, rec0, now) {
                    Err(e) => r == Err::<TokenMovement, Error>(e) && *final(self) == *old(self),
                    Ok(reward) => {
                        &&& r == Ok::<TokenMovement, Error>(
                            TokenMovement::PayToCaller { principal: 0, reward },
                        )
                        &&& final(self).state.total_staked == old(self).state.total_staked
                        &&& final(self).state.total_reward_reserve == old(
                            self,
                        ).state.total_reward_reserve - reward
                        &&& final(self).state.total_funded == old(self).state.total_funded
                        &&& final(self).spec_record_of(caller).claimed_amount
                            == rec0.claimed_amount + reward
                        &&& forall|j: int|
                            0 <= j < old(self).records@.len() && old(self).records@[j].account
                                != caller ==> final(self).records@[j] == #[trigger] old(
                                self,
                            ).records@[j]
                    },
                }
            }),
    {
        let ghost self0 = *self;
        match self.find(caller) {
            Some(i) => {
                let mut stl = self.state;
                let mut recl = self.records[i];
                proof {
                    lemma_element_bounds(self.records@, i as int);
                    self0.lemma_record_of_found(caller, i as int);
                }
                proof {
                    if self0.config.policy is ContinuousIndex {
                        Pool::lemma_owed_bounds(self0, recl, now);
                    }
                }
                let res = engine::claim(&self.config, &mut stl, &mut recl, now);
                match res {
                    Err(e) => Err(e),
                    Ok(mv) => {
                        self.records.set(i, recl);
                        self.state = stl;
                        proof {
                            if self0.config.policy is ContinuousIndex {
                                Pool::lemma_touched_entitlement(
                                    self0,
                                    self0.records@[i as int],
                                    recl,
                                    now,
                                );
                            }
                            self.lemma_after_touch(self0, i as int, recl, stl, now);
                            self.lemma_record_of_found(caller, i as int);
                        }
                        Ok(mv)
                    },
                }
            },
            None => {
                let mut stl = self.state;
                let mut recl = StakeRecord::new(caller);
                proof {
                    Pool::lemma_fresh_rec_ok(self.config, self.state, caller);
                    if self0.config.policy is ContinuousIndex {
                        Pool::lemma_owed_bounds(self0, recl, now);
                    }
                }
                let res = engine::claim(&self.config, &mut stl, &mut recl, now);
                match res {
                    Err(e) => Err(e),
                    Ok(mv) => {
                        self.records.push(recl);
                        self.state = stl;
                        proof {
                            if self0.config.policy is ContinuousIndex {
                                Pool::lemma_touched_entitlement(
                                    self0,
                                    Pool::spec_fresh(caller),
                                    recl,
                                    now,
                                );
                            }
                            self.lemma_after_push(self0, recl, stl, now);
                            self.lemma_record_of_found(caller, self0.records@.len() as int);
                        }
                        Ok(mv)
                    },
                }
            },
        }
    }

    /// One-shot funding of a snapshot pool by the owner: only once, the
    /// prize pulled into custody and the APR fixed for the cycle.
    pub fn notify(&mut self, caller: u64, caller_balance: u64) -> (r: Result<TokenMovement, Error>)
        requires
            old(self).wf(),
            old(self).config.is_snapshot(),
        ensures
            final(self).wf(),
            final(self).config == old(self).config,
            ({
                if caller != old(self).config.owner {
                    r == Err::<TokenMovement, Error>(Error::AdminError) && *final(self) == *old(
                        self,
                    )
                } else if old(self).state.notified {
                    r == Err::<TokenMovement, Error>(Error::AlreadyNotified) && *final(self)
                        == *old(self)
                } else if caller_balance < spec_prize(old(self).config) {
                    r == Err::<TokenMovement, Error>(Error::InsufficientBalance) && *final(self)
                        == *old(self)
                } else {
                    &&& r == Ok::<TokenMovement, Error>(
                        TokenMovement::PullFromCaller {
                            amount: spec_prize(old(self).config) as u64,
                        },
                    )
                    &&& final(self).state.notified
                    &&& final(self).state.total_staked == 0
                    &&& final(self).state.total_reward_reserve == spec_prize(old(self).config)
                    &&& final(self).state.total_funded == old(self).state.total_funded
                        + spec_prize(old(self).config)
                    &&& final(self).records@ == old(self).records@
                }
            }),
    {
        let ghost self0 = *self;
        let mut stl = self.state;
        let res = engine::notify(&self.config, &mut stl, caller, caller_balance);
        match res {
            Err(e) => Err(e),
            Ok(mv) => {
                self.state = stl;
                proof {
                    self.lemma_after_snapshot_funding(self0, stl);
                }
                Ok(mv)
            },
        }
    }

    /// Funds (or re-funds) a continuous pool with `new_reward`, blending
    /// any undistributed remainder into the new cycle's rate.
    pub fn notify_reward_amount(
        &mut self,
        caller: u64,
        now: u64,
        new_reward: u64,
        caller_balance: u64,
    ) -> (r: Result<TokenMovement, Error>)
        requires
            old(self).wf(),
            old(self).config.policy is ContinuousIndex,
            clock_ok(old(self).state, now),
            old(self).state.total_funded + new_reward <= u64::MAX,
            now + old(self).config.duration <= u64::MAX,
        ensures
            final(self).wf(),
            final(self).config == old(self).config,
            ({
                let ca2 = spec_update(
                    old(self).config,
                    old(self).state.accrual->Continuous_0,
                    old(self).state.total_staked,
                    now,
                );
                let rate2 = spec_blended_rate(old(self).config, ca2, now, new_reward);
                if caller != old(self).config.owner {
                    r == Err::<TokenMovement, Error>(Error::AdminError) && *final(self) == *old(
                        self,
                    )
                } else if rate2 == 0 {
                    r == Err::<TokenMovement, Error>(Error::RewardRateError) && *final(self)
                        == *old(self)
                } else if caller_balance < new_reward {
                    r == Err::<TokenMovement, Error>(Error::InsufficientBalance) && *final(self)
                        == *old(self)
                } else {
                    &&& r == Ok::<TokenMovement, Error>(
                        TokenMovement::PullFromCaller { amount: new_reward },
                    )
                    &&& final(self).state.accrual == AccrualState::Continuous(
                        spec_notify_accrual(old(self).config, ca2, now, new_reward),
                    )
                    &&& final(self).state.total_reward_reserve == old(
                        self,
                    ).state.total_reward_reserve + new_reward
                    &&& final(self).state.total_funded == old(self).state.total_funded
                        + new_reward
                    &&& final(self).state.notified
                    &&& final(self).records@ == old(self).records@
                }
            }),
    {
        let ghost self0 = *self;
        let mut stl = self.state;
        let res = engine::notify_reward_amount(
            &self.config,
            &mut stl,
            caller,
            now,
            new_reward,
            caller_balance,
        );
        match res {
            Err(e) => Err(e),
            Ok(mv) => {
                self.state = stl;
                proof {
                    self.lemma_after_continuous_funding(self0, stl, now, new_reward);
                }
                Ok(mv)
            },
        }
    }

    /// Current value of the reward-per-token index at `now`.
    pub fn reward_per_token(&self, now: u64) -> (r: u128)
        requires
            self.wf(),
            self.config.policy is ContinuousIndex,
            clock_ok(self.state, now),
        ensures
            r == continuous::spec_reward_per_token(
                self.config,
                self.state.accrual->Continuous_0,
                self.state.total_staked,
                now,
            ),
    {
        let ca_in = match self.state.accrual {
            AccrualState::Continuous(c) => c,
            AccrualState::Snapshot(_) => {
                // unreachable: the policy pins the accrual variant
                proof {
                    assert(false);
                }
                return 0;
            },
        };
        let mut ca = ca_in;
        proof {
            continuous::lemma_ok_weaken(self.config, ca, self.state.total_funded, u64::MAX);
            continuous::lemma_update_preserves_accrual_ok(
                self.config,
                ca,
                self.state.total_staked,
                self.state.total_funded,
                now,
            );
        }
        continuous::update_reward(&self.config, &mut ca, self.state.total_staked, now);
        ca.reward_per_token_stored
    }

    /// Reward owed to `account` at `now`, were it claimed now.
    pub fn earned(&self, account: u64, now: u64) -> (r: u64)
        requires
            self.wf(),
            self.config.policy is ContinuousIndex,
            clock_ok(self.state, now),
        ensures
            r == spec_earned(
                self.config,
                spec_update(
                    self.config,
                    self.state.accrual->Continuous_0,
                    self.state.total_staked,
                    now,
                ),
                self.spec_record_of(account),
            ),
    {
        let ca_in = match self.state.accrual {
            AccrualState::Continuous(c) => c,
            AccrualState::Snapshot(_) => {
                // unreachable: the policy pins the accrual variant
                proof {
                    assert(false);
                }
                return 0;
            },
        };
        let mut ca = ca_in;
        proof {
            continuous::lemma_ok_weaken(self.config, ca, self.state.total_funded, u64::MAX);
            continuous::lemma_update_preserves_accrual_ok(
                self.config,
                ca,
                self.state.total_staked,
                self.state.total_funded,
                now,
            );
        }
        let mut recl = match self.find(account) {
            Some(i) => {
                proof {
                    lemma_element_bounds(self.records@, i as int);
                    self.lemma_record_of_found(account, i as int);
                }
                self.records[i]
            },
            None => StakeRecord::new(account),
        };
        proof {
            if !self.has_record(account) {
                Pool::lemma_fresh_rec_ok(self.config, self.state, account);
            }
            continuous::lemma_update_preserves_record_ok(
                self.config,
                ca,
                self.state.total_staked,
                self.state.total_funded,
                now,
                recl,
            );
        }
        continuous::update_reward(&self.config, &mut ca, self.state.total_staked, now);
        proof {
            continuous::lemma_record_ok_weaken(
                self.config,
                ca,
                self.state.total_funded,
                u64::MAX,
                recl,
            );
            continuous::lemma_accrue_preserves_record_ok(
                self.config,
                ca,
                self.state.total_funded,
                recl,
            );
        }
        continuous::accrue_record(&self.config, &ca, &mut recl);
        recl.pending_reward
    }
}

} // verus!
