//! Reward accrual: simple interest on the staked principal, rounded down.

use vstd::prelude::*;
use vstd::arithmetic::div_mod::{
    lemma_div_pos_is_pos,
    lemma_fundamental_div_mod,
    lemma_hoist_over_denominator,
    lemma_mod_bound,
};
use vstd::arithmetic::mul::lemma_mul_nonnegative;

verus! {

/// The yield is given in basis points: an `apy` of 10_000 is 100% a year.
pub const APY_DENOMINATOR: u128 = 10_000;

/// Number of blocks that make up one year of accrual.
pub const BLOCKS_PER_YEAR: u128 = 365;

/// The divisor of the reward formula.
pub const REWARD_DIVISOR: u128 = APY_DENOMINATOR * BLOCKS_PER_YEAR;

/// Reward owed on `amount` over `elapsed_blocks` blocks at yield `apy`:
/// `floor(amount * apy * elapsed_blocks / (APY_DENOMINATOR * BLOCKS_PER_YEAR))`.
pub open spec fn reward(amount: int, elapsed_blocks: int, apy: int) -> int {
    (amount * apy * elapsed_blocks) / (APY_DENOMINATOR * BLOCKS_PER_YEAR) as int
}

/// Computes `reward(amount, elapsed_blocks, apy)` exactly, without any
/// intermediate overflow; `None` exactly when the reward exceeds `u128::MAX`.
pub fn compute_reward(amount: u128, elapsed_blocks: u64, apy: u64) -> (r: Option<u128>)
    ensures
        0 <= reward(amount as int, elapsed_blocks as int, apy as int),
        reward(amount as int, elapsed_blocks as int, apy as int) <= u128::MAX ==> r == Some(
            reward(amount as int, elapsed_blocks as int, apy as int) as u128,
        ),
        reward(amount as int, elapsed_blocks as int, apy as int) > u128::MAX ==> r is None,
{
    let d: u128 = REWARD_DIVISOR;
    assert((apy as int) * (elapsed_blocks as int) <= u128::MAX) by (nonlinear_arith)
        requires
            apy <= u64::MAX,
            elapsed_blocks <= u64::MAX,
    ;
    let b: u128 = apy as u128 * elapsed_blocks as u128;
    // amount * b == (qa * b + ra * qb) * d + ra * rb
    let qa: u128 = amount / d;
    let ra: u128 = amount % d;
    let qb: u128 = b / d;
    let rb: u128 = b % d;
    let ghost exact: int = reward(amount as int, elapsed_blocks as int, apy as int);
    proof {
        lemma_fundamental_div_mod(amount as int, d as int);
        lemma_fundamental_div_mod(b as int, d as int);
        lemma_mod_bound(amount as int, d as int);
        lemma_mod_bound(b as int, d as int);
        lemma_mul_nonnegative(amount as int, b as int);
        assert(amount as int * apy as int * elapsed_blocks as int == amount as int * b as int)
            by (nonlinear_arith)
            requires
                b == apy as int * elapsed_blocks as int,
        ;
        let k: int = qa as int * b as int + ra as int * qb as int;
        assert(amount as int * b as int == k * d as int + ra as int * rb as int) by (nonlinear_arith)
            requires
                amount == d * qa + ra,
                b == d * qb + rb,
                k == qa as int * b as int + ra as int * qb as int,
        ;
        lemma_hoist_over_denominator(ra as int * rb as int, k, d as nat);
        assert(0 <= ra as int * rb as int) by (nonlinear_arith)
            requires
                0 <= ra,
                0 <= rb,
        ;
        lemma_div_pos_is_pos(ra as int * rb as int, d as int);
        assert(0 <= qa as int * b as int && 0 <= ra as int * qb as int) by (nonlinear_arith)
            requires
                0 <= qa,
                0 <= b,
                0 <= ra,
                0 <= qb,
        ;
        assert(exact == qa as int * b as int + ra as int * qb as int + (ra as int * rb as int) / d as int);
    }
    assert(ra as int * qb as int <= b as int) by (nonlinear_arith)
        requires
            ra < d,
            b == d * qb + rb,
            0 <= rb,
            0 <= qb,
    ;
    assert(ra as int * rb as int <= (d as int) * (d as int)) by (nonlinear_arith)
        requires
            ra < d,
            rb < d,
            0 <= ra,
            0 <= rb,
    ;
    let t2: u128 = ra * qb;
    let t3: u128 = ra * rb / d;
    match qa.checked_mul(b) {
        None => None,
        Some(t1) => match t1.checked_add(t2) {
            None => None,
            Some(t12) => t12.checked_add(t3),
        },
    }
}

} // verus!
