//! Sums over the per-account ledger, and how they change when one record
//! is touched.  These carry the pool-wide conservation invariants.

use vstd::prelude::*;
use crate::state::StakeRecord;

verus! {

/// Sum of all staked amounts in the ledger.
pub open spec fn sum_staked(s: Seq<StakeRecord>) -> int
    decreases s.len(),
{
    if s.len() == 0 {
        0
    } else {
        sum_staked(s.drop_last()) + s.last().staked_amount
    }
}

/// Sum of all accrued-but-unpaid rewards in the ledger.
pub open spec fn sum_pending(s: Seq<StakeRecord>) -> int
    decreases s.len(),
{
    if s.len() == 0 {
        0
    } else {
        sum_pending(s.drop_last()) + s.last().pending_reward
    }
}

/// Sum of all rewards ever paid out of the ledger.
pub open spec fn sum_claimed(s: Seq<StakeRecord>) -> int
    decreases s.len(),
{
    if s.len() == 0 {
        0
    } else {
        sum_claimed(s.drop_last()) + s.last().claimed_amount
    }
}

/// Both sums are sums of machine words, hence non-negative.
pub proof fn lemma_sums_nonneg(s: Seq<StakeRecord>)
    ensures
        sum_staked(s) >= 0,
        sum_claimed(s) >= 0,
        sum_pending(s) >= 0,
    decreases s.len(),
{
    if s.len() > 0 {
        lemma_sums_nonneg(s.drop_last());
    }
}

/// Each record contributes no more than the whole sum.
pub proof fn lemma_element_bounds(s: Seq<StakeRecord>, i: int)
    requires
        0 <= i < s.len(),
    ensures
        s[i].staked_amount <= sum_staked(s),
        s[i].claimed_amount <= sum_claimed(s),
    decreases s.len(),
{
    lemma_sums_nonneg(s.drop_last());
    if i < s.len() - 1 {
        lemma_element_bounds(s.drop_last(), i);
    }
}

/// Appending a record adds its amounts to the sums.
pub proof fn lemma_sum_push(s: Seq<StakeRecord>, r: StakeRecord)
    ensures
        sum_staked(s.push(r)) == sum_staked(s) + r.staked_amount,
        sum_claimed(s.push(r)) == sum_claimed(s) + r.claimed_amount,
{
    assert(s.push(r).drop_last() =~= s);
}

/// Replacing one record shifts the sums by the difference it makes.
pub proof fn lemma_sum_update(s: Seq<StakeRecord>, i: int, r: StakeRecord)
    requires
        0 <= i < s.len(),
    ensures
        sum_staked(s.update(i, r)) == sum_staked(s) - s[i].staked_amount + r.staked_amount,
        sum_claimed(s.update(i, r)) == sum_claimed(s) - s[i].claimed_amount + r.claimed_amount,
    decreases s.len(),
{
    let s2 = s.update(i, r);
    if i == s.len() - 1 {
        assert(s2.drop_last() =~= s.drop_last());
        assert(s2.last() == r);
    } else {
        assert(s2.drop_last() =~= s.drop_last().update(i, r));
        assert(s2.last() == s.last());
        lemma_sum_update(s.drop_last(), i, r);
    }
}

/// A ledger whose records have no claims has a zero claimed sum.
pub proof fn lemma_sum_claimed_zero(s: Seq<StakeRecord>)
    requires
        forall|i: int| 0 <= i < s.len() ==> s[i].claimed_amount == 0,
    ensures
        sum_claimed(s) == 0,
    decreases s.len(),
{
    if s.len() > 0 {
        lemma_sum_claimed_zero(s.drop_last());
    }
}

} // verus!
