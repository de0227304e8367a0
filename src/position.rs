//! One account's staking position and the settlement of its accrued reward.

use vstd::prelude::*;
use crate::reward::{compute_reward, reward};

verus! {

/// Why an operation was refused. A refused operation changes nothing.
#[derive(Clone, Copy, Debug, PartialEq, Eq, Structural)]
pub enum StakingError {
    /// The stake exceeds the caller's available balance.
    InsufficientBalance,
    /// The unstake exceeds the staked principal.
    InsufficientStake,
    /// The host reported that the outbound transfer failed.
    TransferFailed,
    /// The block height is below the position's last settlement.
    ClockRegression,
    /// A principal or an owed reward would not fit in 128 bits.
    ArithmeticOverflow,
}

/// An account's principal, its accrual checkpoint and the reward owed to it.
#[derive(Clone, Copy, Debug, PartialEq, Eq, Structural)]
pub struct StakingPosition {
    /// Current principal.
    pub amount_staked: u128,
    /// Block of the most recent stake.
    pub last_staked_block: u64,
    /// Block up to which reward has been accrued into `pending_reward`.
    pub last_settled_block: u64,
    /// Reward accrued and not yet paid out.
    pub pending_reward: u128,
}

impl StakingPosition {
    /// The position of an account that never staked.
    pub open spec fn zero() -> StakingPosition {
        StakingPosition { amount_staked: 0, last_staked_block: 0, last_settled_block: 0, pending_reward: 0 }
    }

    /// Reward accrued on the principal since the last settlement, up to `now`.
    pub open spec fn accrued(self, now: u64, apy: u64) -> int {
        reward(self.amount_staked as int, now - self.last_settled_block, apy as int)
    }

    /// The position with its accrual up to `now` added to the owed reward,
    /// or why that cannot be done.
    pub open spec fn settled(self, now: u64, apy: u64) -> Result<StakingPosition, StakingError> {
        if now < self.last_settled_block {
            Err(StakingError::ClockRegression)
        } else if self.pending_reward + self.accrued(now, apy) > u128::MAX {
            Err(StakingError::ArithmeticOverflow)
        } else {
            Ok(StakingPosition {
                amount_staked: self.amount_staked,
                last_staked_block: self.last_staked_block,
                last_settled_block: now,
                pending_reward: (self.pending_reward + self.accrued(now, apy)) as u128,
            })
        }
    }

    /// Returns the position of an account that never staked.
    pub fn empty() -> (r: StakingPosition)
        ensures
            r == StakingPosition::zero(),
    {
        StakingPosition { amount_staked: 0, last_staked_block: 0, last_settled_block: 0, pending_reward: 0 }
    }

    /// Settles the accrual up to block `now` into the owed reward.
    pub fn settle(&self, now: u64, apy: u64) -> (r: Result<StakingPosition, StakingError>)
        ensures
            r == self.settled(now, apy),
    {
        if now < self.last_settled_block {
            return Err(StakingError::ClockRegression);
        }
        let elapsed: u64 = now - self.last_settled_block;
        match compute_reward(self.amount_staked, elapsed, apy) {
            None => Err(StakingError::ArithmeticOverflow),
            Some(accrued) => match self.pending_reward.checked_add(accrued) {
                None => Err(StakingError::ArithmeticOverflow),
                Some(pending) => Ok(StakingPosition {
                    amount_staked: self.amount_staked,
                    last_staked_block: self.last_staked_block,
                    last_settled_block: now,
                    pending_reward: pending,
                }),
            },
        }
    }
}

} // verus!
