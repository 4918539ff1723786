//! Failure codes for pool operations.
//!
//! Every rejected operation aborts as a whole: a transition that returns an
//! error leaves the pool state exactly as it was before the call.

use vstd::prelude::*;

verus! {

/// Reason a pool operation was rejected.  Each mutating entry point reports
/// exactly one of these and performs no state change when it does.
#[derive(Clone, Copy, Debug, PartialEq, Eq, Structural)]
pub enum Error {
    /// Expected persisted state is missing or malformed; signals a corrupted
    /// deployment rather than a caller mistake.
    FatalError,
    /// The caller is not the pool owner where an owner-only action was asked.
    AdminError,
    /// The one-shot funding step was attempted a second time.
    AlreadyNotified,
    /// The caller's token balance, or the pool's reward reserve, is too small
    /// to cover the requested movement.
    InsufficientBalance,
    /// A staking operation arrived before the pool was funded.
    WaitingNotify,
    /// The deposit window has not opened yet.
    StakeIsNotStarted,
    /// The deposit window has already closed.
    StakeIsCompleted,
    /// A zero amount was supplied.
    AmountIsZero,
    /// The amount falls outside the per-account `[min_stake, max_stake]`
    /// bounds.
    AmountLimits,
    /// The stake would push the pool past its maximum capacity.
    MaxCapacityError,
    /// An account key could not be understood by the host shell.
    InvalidKey,
    /// Withdrawal was attempted before the lock period expired.
    StillLockPeriod,
    /// The caller has no active stake to act on.
    StakeAmountIsZero,
    /// The caller's stake balance does not cover the requested withdrawal.
    InsufficientStakeBalance,
    /// Funding would leave the continuous reward rate at zero.
    RewardRateError,
    /// The snapshot reward was already paid to this account.
    AlreadyClaimed,
}

} // verus!
