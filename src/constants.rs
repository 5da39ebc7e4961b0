use vstd::prelude::*;

verus! {

/// Capacity of each user's registry of staked tokens.
pub const NFT_STAKE_MAX_COUNT: usize = 50;

/// Capacity of the shared lottery registry.
pub const NFT_TOTAL_COUNT: usize = 5000;

/// Length, in seconds, of one accrual unit.
pub const DAY: i64 = 60;

/// Minimum holding period, in seconds, before a staked token may be withdrawn.
pub const LIMIT_PERIOD: i64 = 600;

/// Whether withdrawals enforce `LIMIT_PERIOD`.
pub const ENFORCE_LIMIT_PERIOD: bool = false;

/// Reward earned by one staked token for each whole accrual unit.
pub const REWARD_PER_DAY: u64 = 20_000_000;

} // verus!
