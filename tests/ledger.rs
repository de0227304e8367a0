use multiversx_sc::types::Address;
use staking_ledger::{compute_reward, StakingContract, StakingError, StakingPosition};

fn account(byte: u8) -> Address {
    Address::new([byte; 32])
}

#[test]
fn new_ledger_is_empty() {
    let ledger = StakingContract::new(500);
    assert_eq!(ledger.get_apy(), 500);
    assert!(ledger.get_staked_addresses().is_empty());
    assert_eq!(ledger.get_staking_position(&account(1)), None);
    assert_eq!(ledger.get_staked_balance(&account(1)), 0);
    assert_eq!(ledger.get_reward_balance(&account(1)), 0);
}

#[test]
fn stake_creates_position() {
    let mut ledger = StakingContract::new(500);
    assert_eq!(ledger.stake(&account(1), 1_000, 7, 5_000), Ok(()));
    assert_eq!(
        ledger.get_staking_position(&account(1)),
        Some(StakingPosition {
            amount_staked: 1_000,
            last_staked_block: 7,
            last_settled_block: 7,
            pending_reward: 0,
        })
    );
    assert_eq!(ledger.get_staked_addresses(), vec![account(1)]);
}

#[test]
fn stake_over_balance_is_refused() {
    let mut ledger = StakingContract::new(500);
    assert_eq!(ledger.stake(&account(1), 101, 0, 100), Err(StakingError::InsufficientBalance));
    assert_eq!(ledger.get_staking_position(&account(1)), None);
    assert!(ledger.get_staked_addresses().is_empty());
    assert_eq!(ledger.stake(&account(1), 100, 0, 100), Ok(()));
    assert_eq!(ledger.get_staked_balance(&account(1)), 100);
}

#[test]
fn accounts_are_kept_apart() {
    let mut ledger = StakingContract::new(500);
    ledger.stake(&account(1), 10, 0, 100).unwrap();
    ledger.stake(&account(2), 20, 0, 100).unwrap();
    ledger.stake(&account(1), 5, 0, 100).unwrap();
    assert_eq!(ledger.get_staked_balance(&account(1)), 15);
    assert_eq!(ledger.get_staked_balance(&account(2)), 20);
    assert_eq!(ledger.get_staked_addresses(), vec![account(1), account(2)]);
}

#[test]
fn restaking_lists_account_once() {
    let mut ledger = StakingContract::new(500);
    for block in 0..5u64 {
        ledger.stake(&account(3), 10, block, 1_000).unwrap();
    }
    ledger.stake(&account(4), 10, 5, 1_000).unwrap();
    let listed = ledger.get_staked_addresses();
    assert_eq!(listed.iter().filter(|a| **a == account(3)).count(), 1);
    assert_eq!(listed, vec![account(3), account(4)]);
}

#[test]
fn stake_then_unstake_same_block_restores_principal() {
    let mut ledger = StakingContract::new(1_000);
    ledger.stake(&account(1), 500, 0, 10_000).unwrap();
    ledger.stake(&account(1), 300, 100, 10_000).unwrap();
    let before = ledger.get_staking_position(&account(1)).unwrap();
    let payout = ledger.unstake(&account(1), 300, 100).unwrap();
    assert_eq!(payout.amount, 300);
    assert_eq!(payout.recipient, account(1));
    assert_eq!(ledger.complete_payout(&payout, true), Ok(300));
    let after = ledger.get_staking_position(&account(1)).unwrap();
    assert_eq!(after.amount_staked, 500);
    assert_eq!(after.pending_reward, before.pending_reward);
}

#[test]
fn unstake_total_of_two_stakes() {
    let mut ledger = StakingContract::new(500);
    ledger.stake(&account(1), 40, 1, 1_000).unwrap();
    ledger.stake(&account(1), 60, 2, 1_000).unwrap();
    assert!(matches!(ledger.unstake(&account(1), 101, 3), Err(StakingError::InsufficientStake)));
    let payout = ledger.unstake(&account(1), 100, 3).unwrap();
    assert_eq!(payout.amount, 100);
    assert_eq!(ledger.complete_payout(&payout, true), Ok(100));
    assert_eq!(ledger.get_staked_balance(&account(1)), 0);
    // a zero position stays stored and listed
    assert!(ledger.get_staking_position(&account(1)).is_some());
    assert_eq!(ledger.get_staked_addresses(), vec![account(1)]);
}

#[test]
fn unstake_without_stake_is_refused() {
    let ledger = StakingContract::new(500);
    assert!(matches!(ledger.unstake(&account(9), 1, 0), Err(StakingError::InsufficientStake)));
}

#[test]
fn failed_transfer_leaves_position() {
    let mut ledger = StakingContract::new(500);
    ledger.stake(&account(1), 1_000, 0, 1_000).unwrap();
    let before = ledger.get_staking_position(&account(1)).unwrap();
    let payout = ledger.unstake(&account(1), 400, 365).unwrap();
    assert_eq!(ledger.complete_payout(&payout, false), Err(StakingError::TransferFailed));
    assert_eq!(ledger.get_staking_position(&account(1)), Some(before));
    assert_eq!(ledger.get_staked_balance(&account(1)), 1_000);
}

#[test]
fn unstake_settles_reward() {
    let mut ledger = StakingContract::new(500);
    ledger.stake(&account(1), 1_000, 0, 1_000).unwrap();
    let payout = ledger.unstake(&account(1), 400, 365).unwrap();
    ledger.complete_payout(&payout, true).unwrap();
    assert_eq!(ledger.get_staked_balance(&account(1)), 600);
    assert_eq!(ledger.get_reward_balance(&account(1)), 50);
    let claim = ledger.claim_rewards(&account(1), 365).unwrap();
    assert_eq!(claim.amount, 50);
}

#[test]
fn claim_pays_accrued_reward() {
    let mut ledger = StakingContract::new(1_000);
    ledger.stake(&account(1), 10_000, 0, 10_000).unwrap();
    let payout = ledger.claim_rewards(&account(1), 73).unwrap();
    assert_eq!(payout.amount, 200);
    assert_eq!(ledger.complete_payout(&payout, true), Ok(200));
    let p = ledger.get_staking_position(&account(1)).unwrap();
    assert_eq!(p.pending_reward, 0);
    assert_eq!(p.last_settled_block, 73);
    assert_eq!(p.amount_staked, 10_000);
}

#[test]
fn second_claim_in_same_block_is_zero() {
    let mut ledger = StakingContract::new(1_000);
    ledger.stake(&account(1), 10_000, 0, 10_000).unwrap();
    let first = ledger.claim_rewards(&account(1), 365).unwrap();
    assert_eq!(first.amount, 1_000);
    ledger.complete_payout(&first, true).unwrap();
    let second = ledger.claim_rewards(&account(1), 365).unwrap();
    assert_eq!(second.amount, 0);
    assert_eq!(ledger.complete_payout(&second, true), Ok(0));
}

#[test]
fn failed_claim_transfer_keeps_reward() {
    let mut ledger = StakingContract::new(1_000);
    ledger.stake(&account(1), 10_000, 0, 10_000).unwrap();
    let first = ledger.claim_rewards(&account(1), 365).unwrap();
    assert_eq!(ledger.complete_payout(&first, false), Err(StakingError::TransferFailed));
    let again = ledger.claim_rewards(&account(1), 365).unwrap();
    assert_eq!(again.amount, 1_000);
}

#[test]
fn restake_keeps_earlier_accrual() {
    let mut ledger = StakingContract::new(1_000);
    ledger.stake(&account(1), 10_000, 0, 100_000).unwrap();
    ledger.stake(&account(1), 50_000, 73, 100_000).unwrap();
    assert_eq!(ledger.get_reward_balance(&account(1)), 200);
    let payout = ledger.claim_rewards(&account(1), 73).unwrap();
    assert_eq!(payout.amount, 200);
}

#[test]
fn claim_without_stake_pays_nothing() {
    let mut ledger = StakingContract::new(1_000);
    let payout = ledger.claim_rewards(&account(5), 1_000).unwrap();
    assert_eq!(payout.amount, 0);
    assert_eq!(ledger.complete_payout(&payout, true), Ok(0));
    assert_eq!(ledger.get_staking_position(&account(5)), None);
    assert!(ledger.get_staked_addresses().is_empty());
}

#[test]
fn clock_regression_is_refused() {
    let mut ledger = StakingContract::new(1_000);
    ledger.stake(&account(1), 100, 50, 1_000).unwrap();
    assert!(matches!(ledger.claim_rewards(&account(1), 49), Err(StakingError::ClockRegression)));
    assert!(matches!(ledger.unstake(&account(1), 10, 49), Err(StakingError::ClockRegression)));
    assert_eq!(ledger.stake(&account(1), 10, 49, 1_000), Err(StakingError::ClockRegression));
    assert_eq!(ledger.get_staked_balance(&account(1)), 100);
}

#[test]
fn principal_overflow_is_refused() {
    let mut ledger = StakingContract::new(0);
    ledger.stake(&account(1), u128::MAX, 0, u128::MAX).unwrap();
    assert_eq!(ledger.stake(&account(1), 1, 0, u128::MAX), Err(StakingError::ArithmeticOverflow));
    assert_eq!(ledger.get_staked_balance(&account(1)), u128::MAX);
}

#[test]
fn reward_overflow_is_refused() {
    let mut ledger = StakingContract::new(u64::MAX);
    ledger.stake(&account(1), u128::MAX, 0, u128::MAX).unwrap();
    assert!(matches!(ledger.claim_rewards(&account(1), 365), Err(StakingError::ArithmeticOverflow)));
}

#[test]
fn full_year_reward_is_yearly_rate() {
    assert_eq!(compute_reward(1_000, 365, 500), Some(1_000 * 500 / 10_000));
    assert_eq!(compute_reward(123_456_789, 365, 1_234), Some(123_456_789 * 1_234 / 10_000));
    let ledger = StakingContract::new(750);
    assert_eq!(ledger.calculate_rewards(2_000, 365), Some(150));
}

#[test]
fn reward_formula_values() {
    assert_eq!(compute_reward(10_000, 73, 1_000), Some(200));
    assert_eq!(compute_reward(1, 1, 1), Some(0));
    assert_eq!(compute_reward(3_650_001, 1, 1), Some(1));
    assert_eq!(compute_reward(0, u64::MAX, u64::MAX), Some(0));
    assert_eq!(compute_reward(u128::MAX, 0, u64::MAX), Some(0));
    assert_eq!(compute_reward(7_300_000, 1, 3), Some(6));
}

#[test]
fn reward_at_the_edge_of_128_bits() {
    assert_eq!(compute_reward(u128::MAX, 365, 10_000), Some(u128::MAX));
    assert_eq!(compute_reward(u128::MAX, 366, 10_000), None);
    assert_eq!(compute_reward(u128::MAX, u64::MAX, u64::MAX), None);
    let big: u128 = 1u128 << 100;
    let exact = big / 3_650_000 * (1_000 * 1_000) + (big % 3_650_000) * 1_000_000 / 3_650_000;
    assert_eq!(compute_reward(big, 1_000, 1_000), Some(exact));
}

#[test]
fn store_put_and_register() {
    let mut ledger = StakingContract::new(500);
    ledger.register_if_new(&account(2));
    assert_eq!(ledger.get_staking_position(&account(2)), Some(ledger.get_position(&account(9))));
    let p = StakingPosition { amount_staked: 9, last_staked_block: 1, last_settled_block: 2, pending_reward: 3 };
    ledger.put_position(&account(2), p);
    ledger.put_position(&account(2), p);
    ledger.register_if_new(&account(2));
    assert_eq!(ledger.get_position(&account(2)), p);
    ledger.put_position(&account(1), p);
    assert_eq!(ledger.get_staked_addresses(), vec![account(2), account(1)]);
}
