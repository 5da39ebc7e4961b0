//! Bookkeeping for NFT staking: fixed-capacity registries of staked tokens,
//! a shared lottery pool, per-user pools, and time-based reward accrual.
pub mod account;
pub mod constants;
pub mod error;
pub mod registry;
pub mod reward;
pub mod staking;
