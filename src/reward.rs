use vstd::prelude::*;

use crate::constants::{DAY, REWARD_PER_DAY};
use crate::error::StakingError;

verus! {

/// The time from which an item earns reward: its stake time, or the last
/// settlement if that came later.
pub open spec fn reward_start(settled: int, stake_time: int) -> int {
    if settled < stake_time {
        stake_time
    } else {
        settled
    }
}

/// Reward earned from `from` to `now`: one `REWARD_PER_DAY` for each whole
/// accrual unit elapsed (for `from <= now`).
pub open spec fn accrual(from: int, now: int) -> int {
    ((now - from) / (DAY as int)) * (REWARD_PER_DAY as int)
}

pub(crate) proof fn lemma_accrual_nonneg(from: int, now: int)
    requires
        from <= now,
    ensures
        accrual(from, now) >= 0,
{
    let d = now - from;
    assert(d / 60 >= 0) by (nonlinear_arith)
        requires
            d >= 0,
    ;
    assert((d / 60) * 20_000_000 >= 0) by (nonlinear_arith)
        requires
            d / 60 >= 0,
    ;
}

/// Reward accrued from `from` to `now`, or why it cannot be paid.
pub fn accrued_reward(from: i64, now: i64) -> (r: Result<u64, StakingError>)
    ensures
        now < from ==> r == Err::<u64, StakingError>(StakingError::ClockRegression),
        from <= now && accrual(from as int, now as int) <= u64::MAX ==> r == Ok::<u64, StakingError>(
            accrual(from as int, now as int) as u64,
        ),
        from <= now && accrual(from as int, now as int) > u64::MAX ==> r == Err::<u64, StakingError>(
            StakingError::ArithmeticOverflow,
        ),
{
    if now < from {
        return Err(StakingError::ClockRegression);
    }
    let elapsed: u64 = (now as i128 - from as i128) as u64;
    assert(elapsed == now - from);
    let units: u64 = elapsed / (DAY as u64);
    match units.checked_mul(REWARD_PER_DAY) {
        Some(reward) => Ok(reward),
        None => Err(StakingError::ArithmeticOverflow),
    }
}

/// For a fixed start, reward never decreases as time goes on.
pub proof fn lemma_accrual_monotonic(from: int, now1: int, now2: int)
    requires
        from <= now1 <= now2,
    ensures
        accrual(from, now1) <= accrual(from, now2),
{
    let d1 = now1 - from;
    let d2 = now2 - from;
    assert(d1 / 60 <= d2 / 60) by (nonlinear_arith)
        requires
            0 <= d1 <= d2,
    ;
    assert((d1 / 60) * 20_000_000 <= (d2 / 60) * 20_000_000) by (nonlinear_arith)
        requires
            d1 / 60 <= d2 / 60,
    ;
}

/// Reward grows only in whole units: if it is higher at `now2` than at
/// `now1`, a multiple of `DAY` past `from` lies in `(now1, now2]`, and the
/// reward at any time equals the reward at the last such multiple.
pub proof fn lemma_accrual_steps(from: int, now1: int, now2: int)
    requires
        from <= now1 <= now2,
    ensures
        accrual(from, now2) == accrual(from, from + ((now2 - from) / (DAY as int)) * (DAY as int)),
        accrual(from, now1) < accrual(from, now2) ==> exists|k: int|
            k > 0 && now1 < #[trigger] (from + k * (DAY as int)) <= now2,
{
    let d1 = now1 - from;
    let d2 = now2 - from;
    let k = d2 / 60;
    assert(k >= 0 && k * 60 <= d2 && (k * 60) / 60 == k) by (nonlinear_arith)
        requires
            d2 >= 0,
            k == d2 / 60,
    ;
    assert((from + k * 60) - from == k * 60);
    if accrual(from, now1) < accrual(from, now2) {
        assert(d1 / 60 < k) by (nonlinear_arith)
            requires
                (d1 / 60) * 20_000_000 < k * 20_000_000,
        ;
        assert(d1 < k * 60) by (nonlinear_arith)
            requires
                d1 / 60 < k,
                d1 >= 0,
        ;
        assert(k > 0);
        assert(now1 < from + k * (DAY as int) <= now2);
    }
}

} // verus!
