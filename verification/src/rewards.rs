//! The interest formula: a fixed rate per accrual period, applied to the
//! principal for the time elapsed since the stake record was last touched,
//! with floor division at each step of the fixed-point arithmetic.

use vstd::arithmetic::div_mod::lemma_div_is_ordered;
use vstd::arithmetic::mul::lemma_mul_inequality;
use vstd::arithmetic::mul::lemma_mul_is_associative;
use vstd::arithmetic::mul::lemma_mul_is_commutative;
use vstd::prelude::*;

verus! {

/// An amount of the asset, in its smallest unit.
pub type Balance = u128;

/// Chain time, in seconds.
pub type Timestamp = u64;

/// Identifies an account on the asset ledger.
pub type AccountId = u128;

/// The denominator of the interest rate.
pub const HUNDRED_PERCENT: u128 = 1_000_000_000;

/// The numerator of the interest rate: together with `HUNDRED_PERCENT`,
/// 0.1% of the principal per accrual period.
pub const INTEREST: u128 = 1_000_000;

/// The length of one accrual period, in seconds.
pub const ONE_DAY: u64 = 86_400;

/// The interest owed on `principal` after `elapsed` seconds:
/// `elapsed * principal * INTEREST`, scaled down by the period length
/// and the rate denominator, rounding toward zero at each step.
pub open spec fn reward_of(principal: int, elapsed: int) -> int {
    ((elapsed * principal * (INTEREST as int)) / (ONE_DAY as int)) / (HUNDRED_PERCENT as int)
}

/// The intermediate products of the reward computation stay within `u128`.
pub open spec fn reward_fits(principal: int, elapsed: int) -> bool {
    &&& principal * (INTEREST as int) <= u128::MAX
    &&& elapsed * (principal * (INTEREST as int)) <= u128::MAX
}

/// The interest owed on `principal` after `elapsed` seconds.
pub fn reward_for(principal: Balance, elapsed: Timestamp) -> (r: Balance)
    requires
        reward_fits(principal as int, elapsed as int),
    ensures
        r as int == reward_of(principal as int, elapsed as int),
{
    let per_period: u128 = principal * INTEREST;
    let scaled: u128 = (elapsed as u128) * per_period;
    proof {
        lemma_mul_is_associative(elapsed as int, principal as int, INTEREST as int);
    }
    (scaled / (ONE_DAY as u128)) / HUNDRED_PERCENT
}

/// Law: for a fixed principal, the accrued reward never decreases as
/// more time elapses.
pub proof fn lemma_reward_monotone_in_elapsed(principal: int, e1: int, e2: int)
    requires
        0 <= principal,
        0 <= e1 <= e2,
    ensures
        reward_of(principal, e1) <= reward_of(principal, e2),
{
    lemma_mul_inequality(e1, e2, principal * (INTEREST as int));
    lemma_mul_is_associative(e1, principal, INTEREST as int);
    lemma_mul_is_associative(e2, principal, INTEREST as int);
    lemma_div_is_ordered(
        e1 * principal * (INTEREST as int),
        e2 * principal * (INTEREST as int),
        ONE_DAY as int,
    );
    lemma_div_is_ordered(
        (e1 * principal * (INTEREST as int)) / (ONE_DAY as int),
        (e2 * principal * (INTEREST as int)) / (ONE_DAY as int),
        HUNDRED_PERCENT as int,
    );
}

/// Law: for a fixed elapsed time, the accrued reward never decreases as
/// the principal grows.
pub proof fn lemma_reward_monotone_in_principal(p1: int, p2: int, elapsed: int)
    requires
        0 <= elapsed,
        0 <= p1 <= p2,
    ensures
        reward_of(p1, elapsed) <= reward_of(p2, elapsed),
{
    lemma_mul_inequality(p1, p2, elapsed);
    lemma_mul_is_commutative(p1, elapsed);
    lemma_mul_is_commutative(p2, elapsed);
    lemma_mul_inequality(elapsed * p1, elapsed * p2, INTEREST as int);
    lemma_div_is_ordered(
        elapsed * p1 * (INTEREST as int),
        elapsed * p2 * (INTEREST as int),
        ONE_DAY as int,
    );
    lemma_div_is_ordered(
        (elapsed * p1 * (INTEREST as int)) / (ONE_DAY as int),
        (elapsed * p2 * (INTEREST as int)) / (ONE_DAY as int),
        HUNDRED_PERCENT as int,
    );
}

/// Law: no time elapsed, no reward.
pub proof fn lemma_reward_zero_at_start(principal: int)
    ensures
        reward_of(principal, 0) == 0,
{
    assert(0 * principal == 0);
}

/// Law: the reward is never negative for non-negative inputs.
pub proof fn lemma_reward_nonnegative(principal: int, elapsed: int)
    requires
        0 <= principal,
        0 <= elapsed,
    ensures
        0 <= reward_of(principal, elapsed),
{
    lemma_mul_inequality(0, elapsed, principal);
    lemma_mul_is_commutative(0, principal);
    lemma_mul_inequality(0, elapsed * principal, INTEREST as int);
    lemma_mul_is_commutative(0, INTEREST as int);
    lemma_div_is_ordered(0, elapsed * principal * (INTEREST as int), ONE_DAY as int);
    lemma_div_is_ordered(
        0,
        (elapsed * principal * (INTEREST as int)) / (ONE_DAY as int),
        HUNDRED_PERCENT as int,
    );
}

} // verus!
