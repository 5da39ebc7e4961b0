use vstd::prelude::*;

use crate::account::{
    first_match, Address, GlobalLotteryPool, GlobalPool, Item, StakedNFT, UserPool,
};
use crate::constants::{NFT_STAKE_MAX_COUNT, NFT_TOTAL_COUNT};
use crate::error::StakingError;
use crate::registry::swap_remove;

verus! {

/// A fresh, empty shared lottery pool.
pub fn initialize() -> (r: GlobalLotteryPool)
    ensures
        r.wf(),
        r.entries() == Seq::<Item>::empty(),
{
    GlobalLotteryPool::new()
}

/// A fresh lottery-side pool for `owner`.
pub fn initialize_lottery_pool(owner: Address) -> (r: UserPool)
    ensures
        r.wf(),
        r.owner == owner,
        r.staked() == Seq::<StakedNFT>::empty(),
        r.reward_time == 0,
        r.pending_reward == 0,
{
    UserPool::new(owner)
}

/// A fresh fixed-reward pool for `owner`.
pub fn initialize_fixed_pool(owner: Address) -> (r: UserPool)
    ensures
        r.wf(),
        r.owner == owner,
        r.staked() == Seq::<StakedNFT>::empty(),
        r.reward_time == 0,
        r.pending_reward == 0,
{
    UserPool::new(owner)
}

/// Only the owner of a user pool may act on it.
fn user(pool: &UserPool, owner: Address) -> (r: Result<(), StakingError>)
    ensures
        pool.owner == owner ==> r == Ok::<(), StakingError>(()),
        pool.owner != owner ==> r == Err::<(), StakingError>(StakingError::InvalidUserPool),
{
    if pool.owner == owner {
        Ok(())
    } else {
        Err(StakingError::InvalidUserPool)
    }
}

/// What staking a token for the lottery yields.
pub open spec fn stake_to_lottery_result(
    global: GlobalPool,
    user_pool: UserPool,
    lottery_pool: GlobalLotteryPool,
    owner: Address,
) -> Result<(), StakingError> {
    if user_pool.owner != owner {
        Err(StakingError::InvalidUserPool)
    } else if user_pool.staked().len() >= NFT_STAKE_MAX_COUNT {
        Err(StakingError::CapacityExceeded)
    } else if lottery_pool.entries().len() >= NFT_TOTAL_COUNT {
        Err(StakingError::CapacityExceeded)
    } else if global.lottery_nft_count == u64::MAX {
        Err(StakingError::ArithmeticOverflow)
    } else {
        Ok(())
    }
}

/// Records `nft_mint`, staked by `owner` at `now`, in the owner's lottery
/// pool and in the shared lottery pool, and counts it; all or nothing.
pub fn stake_nft_to_lottery(
    global: &mut GlobalPool,
    user_pool: &mut UserPool,
    lottery_pool: &mut GlobalLotteryPool,
    owner: Address,
    nft_mint: Address,
    now: i64,
) -> (r: Result<(), StakingError>)
    requires
        old(user_pool).wf(),
        old(lottery_pool).wf(),
    ensures
        final(user_pool).wf(),
        final(lottery_pool).wf(),
        r == stake_to_lottery_result(*old(global), *old(user_pool), *old(lottery_pool), owner),
        r is Ok ==> {
            &&& final(user_pool).staked() == old(user_pool).staked().push(
                StakedNFT { nft_addr: nft_mint, stake_time: now },
            )
            &&& final(user_pool).owner == old(user_pool).owner
            &&& final(user_pool).reward_time == old(user_pool).reward_time
            &&& final(user_pool).pending_reward == old(user_pool).pending_reward
            &&& final(lottery_pool).entries() == old(lottery_pool).entries().push(
                Item { owner, nft_addr: nft_mint, stake_time: now },
            )
            &&& final(global).lottery_nft_count == old(global).lottery_nft_count + 1
            &&& final(global).fixed_nft_count == old(global).fixed_nft_count
        },
        r is Err ==> *final(global) == *old(global) && *final(user_pool) == *old(user_pool)
            && *final(lottery_pool) == *old(lottery_pool),
{
    let checked = user(user_pool, owner);
    if checked.is_err() {
        return checked;
    }
    if user_pool.item_count() >= NFT_STAKE_MAX_COUNT {
        return Err(StakingError::CapacityExceeded);
    }
    if lottery_pool.item_count() >= NFT_TOTAL_COUNT {
        return Err(StakingError::CapacityExceeded);
    }
    if global.lottery_nft_count == u64::MAX {
        return Err(StakingError::ArithmeticOverflow);
    }
    let added = user_pool.add_nft(StakedNFT { nft_addr: nft_mint, stake_time: now });
    let shared = lottery_pool.add_nft(Item { owner, nft_addr: nft_mint, stake_time: now });
    global.lottery_nft_count = global.lottery_nft_count + 1;
    Ok(())
}

/// What withdrawing a token from the lottery yields.
pub open spec fn withdraw_from_lottery_result(
    global: GlobalPool,
    user_pool: UserPool,
    lottery_pool: GlobalLotteryPool,
    owner: Address,
    nft_mint: Address,
    withdraw_index: u64,
    now: i64,
) -> Result<u64, StakingError> {
    let own = user_pool.withdraw_result(owner, nft_mint, now);
    let shared = lottery_pool.removal_result(owner, nft_mint, withdraw_index);
    if user_pool.owner != owner {
        Err(StakingError::InvalidUserPool)
    } else if own is Err {
        own
    } else if shared is Err {
        Err(shared->Err_0)
    } else if global.lottery_nft_count == 0 {
        Err(StakingError::ArithmeticOverflow)
    } else {
        own
    }
}

/// Withdraws `nft_mint` from the owner's lottery pool and from the shared
/// lottery pool (at the index hint `withdraw_index`), uncounts it, and returns
/// the reward it earned; all or nothing.
pub fn withdraw_nft_from_lottery(
    global: &mut GlobalPool,
    user_pool: &mut UserPool,
    lottery_pool: &mut GlobalLotteryPool,
    owner: Address,
    nft_mint: Address,
    withdraw_index: u64,
    now: i64,
) -> (r: Result<u64, StakingError>)
    requires
        old(user_pool).wf(),
        old(lottery_pool).wf(),
    ensures
        final(user_pool).wf(),
        final(lottery_pool).wf(),
        r == withdraw_from_lottery_result(
            *old(global),
            *old(user_pool),
            *old(lottery_pool),
            owner,
            nft_mint,
            withdraw_index,
            now,
        ),
        r is Ok ==> {
            &&& final(user_pool).staked() == swap_remove(
                old(user_pool).staked(),
                first_match(old(user_pool).staked(), nft_mint),
            )
            &&& final(user_pool).owner == old(user_pool).owner
            &&& final(user_pool).reward_time == old(user_pool).reward_time
            &&& final(user_pool).pending_reward == old(user_pool).pending_reward
            &&& final(lottery_pool).entries() == swap_remove(
                old(lottery_pool).entries(),
                withdraw_index as int,
            )
            &&& final(global).lottery_nft_count == old(global).lottery_nft_count - 1
            &&& final(global).fixed_nft_count == old(global).fixed_nft_count
        },
        r is Err ==> *final(global) == *old(global) && *final(user_pool) == *old(user_pool)
            && *final(lottery_pool) == *old(lottery_pool),
{
    if !(user_pool.owner == owner) {
        return Err(StakingError::InvalidUserPool);
    }
    let preview = user_pool.preview_withdraw(owner, nft_mint, now);
    if preview.is_err() {
        return preview;
    }
    let shared = lottery_pool.check_removal(owner, nft_mint, withdraw_index);
    if let Err(e) = shared {
        return Err(e);
    }
    if global.lottery_nft_count == 0 {
        return Err(StakingError::ArithmeticOverflow);
    }
    let reward = user_pool.remove_nft(owner, nft_mint, now);
    let removed = lottery_pool.remove_nft(owner, nft_mint, withdraw_index);
    global.lottery_nft_count = global.lottery_nft_count - 1;
    reward
}

/// What staking a token in the fixed-reward pool yields.
pub open spec fn stake_to_fixed_result(global: GlobalPool, user_pool: UserPool, owner: Address) -> Result<
    (),
    StakingError,
> {
    if user_pool.owner != owner {
        Err(StakingError::InvalidUserPool)
    } else if user_pool.staked().len() >= NFT_STAKE_MAX_COUNT {
        Err(StakingError::CapacityExceeded)
    } else if global.fixed_nft_count == u64::MAX {
        Err(StakingError::ArithmeticOverflow)
    } else {
        Ok(())
    }
}

/// Records `nft_mint`, staked by `owner` at `now`, in the owner's
/// fixed-reward pool, and counts it; all or nothing.
pub fn stake_nft_to_fixed(
    global: &mut GlobalPool,
    user_pool: &mut UserPool,
    owner: Address,
    nft_mint: Address,
    now: i64,
) -> (r: Result<(), StakingError>)
    requires
        old(user_pool).wf(),
    ensures
        final(user_pool).wf(),
        r == stake_to_fixed_result(*old(global), *old(user_pool), owner),
        r is Ok ==> {
            &&& final(user_pool).staked() == old(user_pool).staked().push(
                StakedNFT { nft_addr: nft_mint, stake_time: now },
            )
            &&& final(user_pool).owner == old(user_pool).owner
            &&& final(user_pool).reward_time == old(user_pool).reward_time
            &&& final(user_pool).pending_reward == old(user_pool).pending_reward
            &&& final(global).fixed_nft_count == old(global).fixed_nft_count + 1
            &&& final(global).lottery_nft_count == old(global).lottery_nft_count
        },
        r is Err ==> *final(global) == *old(global) && *final(user_pool) == *old(user_pool),
{
    let checked = user(user_pool, owner);
    if checked.is_err() {
        return checked;
    }
    if user_pool.item_count() >= NFT_STAKE_MAX_COUNT {
        return Err(StakingError::CapacityExceeded);
    }
    if global.fixed_nft_count == u64::MAX {
        return Err(StakingError::ArithmeticOverflow);
    }
    let added = user_pool.add_nft(StakedNFT { nft_addr: nft_mint, stake_time: now });
    global.fixed_nft_count = global.fixed_nft_count + 1;
    Ok(())
}

/// What withdrawing a token from the fixed-reward pool yields.
pub open spec fn withdraw_from_fixed_result(
    global: GlobalPool,
    user_pool: UserPool,
    owner: Address,
    nft_mint: Address,
    now: i64,
) -> Result<u64, StakingError> {
    let own = user_pool.withdraw_result(owner, nft_mint, now);
    if user_pool.owner != owner {
        Err(StakingError::InvalidUserPool)
    } else if own is Err {
        own
    } else if user_pool.pending_reward + own->Ok_0 > u64::MAX {
        Err(StakingError::ArithmeticOverflow)
    } else if global.fixed_nft_count == 0 {
        Err(StakingError::ArithmeticOverflow)
    } else {
        own
    }
}

/// Withdraws `nft_mint` from the owner's fixed-reward pool, uncounts it, and
/// adds the reward it earned to the pool's pending reward, which it returns;
/// all or nothing.
pub fn withdraw_nft_from_fixed(
    global: &mut GlobalPool,
    user_pool: &mut UserPool,
    owner: Address,
    nft_mint: Address,
    now: i64,
) -> (r: Result<u64, StakingError>)
    requires
        old(user_pool).wf(),
    ensures
        final(user_pool).wf(),
        r == withdraw_from_fixed_result(*old(global), *old(user_pool), owner, nft_mint, now),
        r is Ok ==> {
            &&& final(user_pool).staked() == swap_remove(
                old(user_pool).staked(),
                first_match(old(user_pool).staked(), nft_mint),
            )
            &&& final(user_pool).owner == old(user_pool).owner
            &&& final(user_pool).reward_time == old(user_pool).reward_time
            &&& final(user_pool).pending_reward == old(user_pool).pending_reward + r->Ok_0
            &&& final(global).fixed_nft_count == old(global).fixed_nft_count - 1
            &&& final(global).lottery_nft_count == old(global).lottery_nft_count
        },
        r is Err ==> *final(global) == *old(global) && *final(user_pool) == *old(user_pool),
{
    if !(user_pool.owner == owner) {
        return Err(StakingError::InvalidUserPool);
    }
    let reward = match user_pool.preview_withdraw(owner, nft_mint, now) {
        Ok(x) => x,
        Err(e) => {
            return Err(e);
        },
    };
    if reward > u64::MAX - user_pool.pending_reward {
        return Err(StakingError::ArithmeticOverflow);
    }
    if global.fixed_nft_count == 0 {
        return Err(StakingError::ArithmeticOverflow);
    }
    let removed = user_pool.remove_nft(owner, nft_mint, now);
    user_pool.pending_reward = user_pool.pending_reward + reward;
    global.fixed_nft_count = global.fixed_nft_count - 1;
    Ok(reward)
}

/// Settles the owner's fixed-reward pool at `now` and returns the amount to
/// pay out.
pub fn claim_reward(user_pool: &mut UserPool, owner: Address, now: i64) -> (r: Result<
    u64,
    StakingError,
>)
    requires
        old(user_pool).wf(),
    ensures
        final(user_pool).wf(),
        old(user_pool).owner != owner ==> r == Err::<u64, StakingError>(
            StakingError::InvalidUserPool,
        ),
        old(user_pool).owner == owner ==> r == old(user_pool).claim_result(now),
        r is Ok ==> final(user_pool).staked() == old(user_pool).staked() && final(user_pool).owner
            == old(user_pool).owner && final(user_pool).reward_time == now
            && final(user_pool).pending_reward == 0,
        r is Err ==> *final(user_pool) == *old(user_pool),
{
    let checked = user(user_pool, owner);
    if let Err(e) = checked {
        return Err(e);
    }
    user_pool.claim_reward(now)
}

} // verus!
