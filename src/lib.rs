//! A staking ledger: per-account principal, accrual checkpoints and owed
//! reward under a fixed annual yield, with every operation verified.
//!
//! Operations that send value out (unstake, claim) are planned first and
//! stored only once the host reports the transfer: see
//! `StakingContract::complete_payout`.

mod account;
pub mod laws;
pub mod ledger;
pub mod position;
pub mod reward;

pub use ledger::{LedgerView, Payout, StakingContract};
pub use position::{StakingError, StakingPosition};
pub use reward::{compute_reward, APY_DENOMINATOR, BLOCKS_PER_YEAR, REWARD_DIVISOR};
