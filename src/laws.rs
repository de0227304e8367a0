//! Properties of the ledger that span several operations.

use vstd::prelude::*;
use vstd::arithmetic::div_mod::{lemma_div_by_multiple, lemma_div_denominator};
use multiversx_sc::types::Address;
use crate::ledger::{LedgerView, Payout};
use crate::position::{StakingError, StakingPosition};
use crate::reward::{reward, APY_DENOMINATOR, BLOCKS_PER_YEAR};

verus! {

/// `a` occurs in `s` at exactly one index.
pub open spec fn occurs_once(s: Seq<Address>, a: Address) -> bool {
    exists|i: int| 0 <= i < s.len() && s[i] == a && forall|j: int| 0 <= j < s.len() && s[j] == a ==> j == i
}

/// No reward accrues over zero blocks, nor on a zero principal.
pub proof fn lemma_reward_zero(amount: int, elapsed_blocks: int, apy: int)
    ensures
        reward(amount, 0, apy) == 0,
        reward(0, elapsed_blocks, apy) == 0,
{
    assert(amount * apy * 0 == 0) by (nonlinear_arith);
    assert(0 * apy * elapsed_blocks == 0) by (nonlinear_arith);
}

/// A full year of blocks accrues exactly the yearly rate on the principal:
/// `reward(amount, BLOCKS_PER_YEAR, apy) == amount * apy / APY_DENOMINATOR`.
pub proof fn lemma_full_year_reward(amount: nat, apy: nat)
    ensures
        reward(amount as int, BLOCKS_PER_YEAR as int, apy as int) == (amount * apy) as int / APY_DENOMINATOR as int,
{
    let x = (amount * apy) as int;
    assert(amount as int * apy as int * 365 == x * 365) by (nonlinear_arith)
        requires
            x == amount * apy,
    ;
    lemma_div_denominator(x * 365, 365, 10_000);
    assert(365 * 10_000 == 3_650_000);
    lemma_div_by_multiple(x, 365);
}

/// Unstaking never takes a principal below zero: an unstake is planned only
/// for at most the staked principal, and leaves exactly the difference.
pub proof fn lemma_unstake_never_overdraws(v: LedgerView, caller: Address, amount: u128, now: u64)
    requires
        v.unstake_payout(caller, amount, now) is Ok,
    ensures
        amount <= v.position(caller).amount_staked,
        v.unstake_payout(caller, amount, now)->Ok_0.position.amount_staked == v.position(
            caller,
        ).amount_staked - amount,
        v.unstake_payout(caller, amount, now)->Ok_0.position.amount_staked >= 0,
{
}

/// Storing a position keeps the ledger well formed and lists its account.
pub proof fn lemma_with_position_keeps_wf(v: LedgerView, a: Address, p: StakingPosition)
    requires
        v.wf(),
    ensures
        v.with_position(a, p).wf(),
        v.with_position(a, p).index.contains(a),
{
    let w = v.with_position(a, p);
    if !v.index.contains(a) {
        assert(w.index[v.index.len() as int] == a);
        assert forall|x: Address| w.positions.contains_key(x) <==> w.index.contains(x) by {
            if v.index.contains(x) {
                let k = v.index.index_of(x);
                assert(w.index[k] == x);
            }
            if w.index.contains(x) && x != a {
                let k = w.index.index_of(x);
                assert(v.index[k] == x);
            }
        }
    } else {
        assert(w.index.contains(a));
    }
}

/// A stake keeps the ledger well formed and leaves the staker in the index.
pub proof fn lemma_stake_keeps_wf(v: LedgerView, caller: Address, amount: u128, now: u64, balance: u128)
    requires
        v.wf(),
        v.after_stake(caller, amount, now, balance) is Ok,
    ensures
        v.after_stake(caller, amount, now, balance)->Ok_0.wf(),
        v.after_stake(caller, amount, now, balance)->Ok_0.index == v.registered(caller),
        v.after_stake(caller, amount, now, balance)->Ok_0.index.contains(caller),
        v.after_stake(caller, amount, now, balance)->Ok_0.apy == v.apy,
{
    let s = v.position(caller).settled(now, v.apy)->Ok_0;
    lemma_with_position_keeps_wf(
        v,
        caller,
        StakingPosition {
            amount_staked: (s.amount_staked + amount) as u128,
            last_staked_block: now,
            last_settled_block: s.last_settled_block,
            pending_reward: s.pending_reward,
        },
    );
}

/// Recording a transfer keeps the ledger well formed and never changes the
/// index or the yield.
pub proof fn lemma_payout_keeps_wf(v: LedgerView, payout: Payout, transferred: bool)
    requires
        v.wf(),
        v.after_payout(payout, transferred) is Ok,
    ensures
        v.after_payout(payout, transferred)->Ok_0.wf(),
        v.after_payout(payout, transferred)->Ok_0.index == v.index,
        v.after_payout(payout, transferred)->Ok_0.apy == v.apy,
{
    if v.index.contains(payout.recipient) {
        lemma_with_position_keeps_wf(v, payout.recipient, payout.position);
    }
}

/// An account that stakes twice is listed once, and the second stake does
/// not change the list.
pub proof fn lemma_index_lists_staker_once(
    v: LedgerView,
    caller: Address,
    first: u128,
    first_block: u64,
    first_balance: u128,
    second: u128,
    second_block: u64,
    second_balance: u128,
)
    requires
        v.wf(),
        v.after_stake(caller, first, first_block, first_balance) is Ok,
        v.after_stake(caller, first, first_block, first_balance)->Ok_0.after_stake(
            caller,
            second,
            second_block,
            second_balance,
        ) is Ok,
    ensures
        ({
            let v1 = v.after_stake(caller, first, first_block, first_balance)->Ok_0;
            let v2 = v1.after_stake(caller, second, second_block, second_balance)->Ok_0;
            &&& v2.index == v1.index
            &&& occurs_once(v2.index, caller)
        }),
{
    let v1 = v.after_stake(caller, first, first_block, first_balance)->Ok_0;
    lemma_stake_keeps_wf(v, caller, first, first_block, first_balance);
    lemma_stake_keeps_wf(v1, caller, second, second_block, second_balance);
    let v2 = v1.after_stake(caller, second, second_block, second_balance)->Ok_0;
    let i = v2.index.index_of(caller);
    assert(0 <= i < v2.index.len() && v2.index[i] == caller);
}

/// Staking and then unstaking the same amount in the same block restores the
/// principal and adds no reward beyond what the stake settled.
pub proof fn lemma_stake_unstake_restores(v: LedgerView, caller: Address, amount: u128, now: u64, balance: u128)
    requires
        v.wf(),
        v.after_stake(caller, amount, now, balance) is Ok,
    ensures
        ({
            let v1 = v.after_stake(caller, amount, now, balance)->Ok_0;
            let r = v1.unstake_payout(caller, amount, now);
            &&& r is Ok
            &&& r->Ok_0.amount == amount
            &&& r->Ok_0.position.pending_reward == v1.position(caller).pending_reward
            &&& v1.after_payout(r->Ok_0, true) is Ok
            &&& v1.after_payout(r->Ok_0, true)->Ok_0.position(caller).amount_staked == v.position(
                caller,
            ).amount_staked
            &&& v1.after_payout(r->Ok_0, true)->Ok_0.position(caller).pending_reward == v1.position(
                caller,
            ).pending_reward
        }),
{
    let v1 = v.after_stake(caller, amount, now, balance)->Ok_0;
    lemma_stake_keeps_wf(v, caller, amount, now, balance);
    lemma_reward_zero(v1.position(caller).amount_staked as int, 0, v.apy as int);
}

/// Staking `a` and then `b` on an empty position lets exactly `a + b` be
/// unstaken afterwards: `a + b` is granted, `a + b + 1` is refused for lack
/// of stake.
pub proof fn lemma_two_stakes_then_unstake(
    v: LedgerView,
    caller: Address,
    a: u128,
    b: u128,
    first_block: u64,
    second_block: u64,
    unstake_block: u64,
    first_balance: u128,
    second_balance: u128,
)
    requires
        v.wf(),
        v.position(caller).amount_staked == 0,
        v.after_stake(caller, a, first_block, first_balance) is Ok,
        v.after_stake(caller, a, first_block, first_balance)->Ok_0.after_stake(
            caller,
            b,
            second_block,
            second_balance,
        ) is Ok,
        ({
            let v1 = v.after_stake(caller, a, first_block, first_balance)->Ok_0;
            let v2 = v1.after_stake(caller, b, second_block, second_balance)->Ok_0;
            v2.position(caller).settled(unstake_block, v.apy) is Ok
        }),
    ensures
        ({
            let v1 = v.after_stake(caller, a, first_block, first_balance)->Ok_0;
            let v2 = v1.after_stake(caller, b, second_block, second_balance)->Ok_0;
            &&& a + b <= u128::MAX
            &&& v2.unstake_payout(caller, (a + b) as u128, unstake_block) is Ok
            &&& v2.unstake_payout(caller, (a + b) as u128, unstake_block)->Ok_0.position.amount_staked == 0
            &&& a + b + 1 <= u128::MAX ==> v2.unstake_payout(caller, (a + b + 1) as u128, unstake_block)
                == Err::<Payout, StakingError>(StakingError::InsufficientStake)
        }),
{
    let v1 = v.after_stake(caller, a, first_block, first_balance)->Ok_0;
    lemma_stake_keeps_wf(v, caller, a, first_block, first_balance);
    let v2 = v1.after_stake(caller, b, second_block, second_balance)->Ok_0;
    assert(v1.position(caller).amount_staked == a);
    assert(v2.position(caller).amount_staked == a + b);
}

/// Claiming twice in the same block pays nothing the second time.
pub proof fn lemma_second_claim_is_zero(v: LedgerView, caller: Address, now: u64)
    requires
        v.wf(),
        v.claim_payout(caller, now) is Ok,
    ensures
        ({
            let p = v.claim_payout(caller, now)->Ok_0;
            let v1 = v.after_payout(p, true)->Ok_0;
            &&& v.after_payout(p, true) is Ok
            &&& v1.claim_payout(caller, now) is Ok
            &&& v1.claim_payout(caller, now)->Ok_0.amount == 0
        }),
{
    let p = v.claim_payout(caller, now)->Ok_0;
    lemma_reward_zero(p.position.amount_staked as int, now as int, v.apy as int);
    lemma_reward_zero(0, now as int, v.apy as int);
}

/// A second stake settles the reward accrued on the first one: stake `x` at
/// block 0 on an empty position, stake `y` at block `n`, and a claim at block
/// `n` pays the reward of `x` over `n` blocks.
pub proof fn lemma_restake_keeps_accrual(
    v: LedgerView,
    caller: Address,
    x: u128,
    y: u128,
    n: u64,
    first_balance: u128,
    second_balance: u128,
)
    requires
        v.wf(),
        v.position(caller) == StakingPosition::zero(),
        v.after_stake(caller, x, 0, first_balance) is Ok,
        v.after_stake(caller, x, 0, first_balance)->Ok_0.after_stake(caller, y, n, second_balance) is Ok,
    ensures
        ({
            let v1 = v.after_stake(caller, x, 0, first_balance)->Ok_0;
            let v2 = v1.after_stake(caller, y, n, second_balance)->Ok_0;
            &&& v2.claim_payout(caller, n) is Ok
            &&& v2.claim_payout(caller, n)->Ok_0.amount == reward(x as int, n as int, v.apy as int)
        }),
{
    lemma_reward_zero(0, 0, v.apy as int);
    lemma_reward_zero((x + y) as int, 0, v.apy as int);
    lemma_stake_keeps_wf(v, caller, x, 0, first_balance);
}

/// A transfer that the host reports as failed is refused, and by the
/// contract of `complete_payout` the ledger, principal included, stays as it
/// was.
pub proof fn lemma_failed_transfer_changes_nothing(v: LedgerView, caller: Address, amount: u128, now: u64)
    requires
        v.unstake_payout(caller, amount, now) is Ok,
    ensures
        v.after_payout(v.unstake_payout(caller, amount, now)->Ok_0, false) == Err::<LedgerView, StakingError>(
            StakingError::TransferFailed,
        ),
{
}

} // verus!
