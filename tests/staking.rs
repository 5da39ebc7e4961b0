use nft_staking::account::{Address, GlobalLotteryPool, GlobalPool, Item, StakedNFT, UserPool};
use nft_staking::constants::{DAY, NFT_STAKE_MAX_COUNT, NFT_TOTAL_COUNT, REWARD_PER_DAY};
use nft_staking::error::StakingError;
use nft_staking::registry::BoundedRegistry;
use nft_staking::reward::accrued_reward;
use nft_staking::staking::{
    claim_reward, initialize, initialize_fixed_pool, initialize_lottery_pool, stake_nft_to_fixed,
    stake_nft_to_lottery, withdraw_nft_from_fixed, withdraw_nft_from_lottery,
};

fn addr(b: u8) -> Address {
    Address([b; 32])
}

fn staked_pairs(pool: &UserPool) -> Vec<(u8, i64)> {
    let mut v: Vec<(u8, i64)> = (0..pool.item_count())
        .map(|i| {
            let it = pool.item(i);
            (it.nft_addr.0[0], it.stake_time)
        })
        .collect();
    v.sort();
    v
}

#[test]
fn registry_append_until_full() {
    let mut r: BoundedRegistry<u32> = BoundedRegistry::new(2, 0);
    assert_eq!(r.capacity(), 2);
    assert_eq!(r.append(7), Ok(()));
    assert_eq!(r.append(8), Ok(()));
    assert_eq!(r.append(9), Err(StakingError::CapacityExceeded));
    assert_eq!(r.len(), 2);
    assert_eq!(r.get(0), 7);
    assert_eq!(r.get(1), 8);
}

#[test]
fn registry_remove_moves_last_into_gap() {
    let mut r: BoundedRegistry<u32> = BoundedRegistry::new(4, 0);
    for x in [10, 20, 30, 40] {
        r.append(x).unwrap();
    }
    assert_eq!(r.remove_at(1), Ok(20));
    assert_eq!(r.len(), 3);
    assert_eq!((r.get(0), r.get(1), r.get(2)), (10, 40, 30));
    assert_eq!(r.remove_at(3), Err(StakingError::IndexOutOfRange));
    assert_eq!(r.len(), 3);
}

#[test]
fn registry_remove_last_keeps_others() {
    let mut r: BoundedRegistry<u32> = BoundedRegistry::new(4, 0);
    for x in [10, 20, 30] {
        r.append(x).unwrap();
    }
    assert_eq!(r.remove_at(2), Ok(30));
    assert_eq!((r.len(), r.get(0), r.get(1)), (2, 10, 20));
}

#[test]
fn user_pool_capacity_is_enforced() {
    let mut pool = UserPool::new(addr(1));
    for i in 0..NFT_STAKE_MAX_COUNT {
        let item = StakedNFT { nft_addr: addr(i as u8 + 10), stake_time: i as i64 };
        assert_eq!(pool.add_nft(item), Ok(()));
    }
    let extra = StakedNFT { nft_addr: addr(200), stake_time: 0 };
    assert_eq!(pool.add_nft(extra), Err(StakingError::CapacityExceeded));
    assert_eq!(pool.item_count(), NFT_STAKE_MAX_COUNT);
}

#[test]
fn lottery_pool_capacity_is_enforced() {
    let mut pool = GlobalLotteryPool::new();
    for i in 0..NFT_TOTAL_COUNT {
        let item = Item { owner: addr(1), nft_addr: addr((i % 250) as u8), stake_time: i as i64 };
        assert_eq!(pool.add_nft(item), Ok(()));
    }
    let extra = Item { owner: addr(1), nft_addr: addr(251), stake_time: 0 };
    assert_eq!(pool.add_nft(extra), Err(StakingError::CapacityExceeded));
    assert_eq!(pool.item_count(), NFT_TOTAL_COUNT);
}

#[test]
fn withdraw_removes_only_that_token() {
    let mut pool = UserPool::new(addr(1));
    for (b, t) in [(10u8, 5i64), (11, 6), (12, 7), (13, 8)] {
        pool.add_nft(StakedNFT { nft_addr: addr(b), stake_time: t }).unwrap();
    }
    assert_eq!(pool.remove_nft(addr(1), addr(11), 100), Ok(20_000_000));
    assert_eq!(pool.item_count(), 3);
    assert_eq!(pool.find_nft(addr(11)), None);
    assert_eq!(staked_pairs(&pool), vec![(10, 5), (12, 7), (13, 8)]);
    assert_eq!(pool.reward_time, 0);
    assert_eq!(pool.pending_reward, 0);
}

#[test]
fn withdraw_unknown_token_is_not_found() {
    let mut pool = UserPool::new(addr(1));
    pool.add_nft(StakedNFT { nft_addr: addr(10), stake_time: 0 }).unwrap();
    assert_eq!(pool.remove_nft(addr(1), addr(99), 100), Err(StakingError::NotFound));
    assert_eq!(pool.item_count(), 1);
}

#[test]
fn withdraw_by_other_owner_is_rejected() {
    let mut pool = UserPool::new(addr(1));
    pool.add_nft(StakedNFT { nft_addr: addr(10), stake_time: 0 }).unwrap();
    assert_eq!(pool.remove_nft(addr(2), addr(10), 100), Err(StakingError::OwnerMismatch));
    assert_eq!(pool.item_count(), 1);
    assert_eq!(pool.item(0), StakedNFT { nft_addr: addr(10), stake_time: 0 });
}

#[test]
fn withdraw_before_stake_time_is_clock_regression() {
    let mut pool = UserPool::new(addr(1));
    pool.add_nft(StakedNFT { nft_addr: addr(10), stake_time: 500 }).unwrap();
    assert_eq!(pool.remove_nft(addr(1), addr(10), 499), Err(StakingError::ClockRegression));
    assert_eq!(pool.item_count(), 1);
}

#[test]
fn withdraw_counts_from_last_settlement() {
    let mut pool = UserPool::new(addr(1));
    pool.add_nft(StakedNFT { nft_addr: addr(10), stake_time: 0 }).unwrap();
    assert_eq!(pool.claim_reward(100), Ok(20_000_000));
    // 100 -> 220 is two whole units; counting from the stake time would give three
    assert_eq!(pool.remove_nft(addr(1), addr(10), 220), Ok(40_000_000));
}

#[test]
fn reward_grows_in_whole_units() {
    assert_eq!(DAY, 60);
    assert_eq!(REWARD_PER_DAY, 20_000_000);
    assert_eq!(accrued_reward(0, 0), Ok(0));
    assert_eq!(accrued_reward(0, 59), Ok(0));
    assert_eq!(accrued_reward(0, 60), Ok(20_000_000));
    assert_eq!(accrued_reward(0, 119), Ok(20_000_000));
    assert_eq!(accrued_reward(0, 120), Ok(40_000_000));
    assert_eq!(accrued_reward(-30, 30), Ok(20_000_000));
    assert_eq!(accrued_reward(10, 9), Err(StakingError::ClockRegression));
}

#[test]
fn reward_overflow_is_reported() {
    assert_eq!(accrued_reward(i64::MIN, i64::MAX), Err(StakingError::ArithmeticOverflow));
    assert_eq!(accrued_reward(0, i64::MAX), Err(StakingError::ArithmeticOverflow));
}

#[test]
fn claim_scenario_with_one_item() {
    let mut pool = UserPool::new(addr(1));
    pool.add_nft(StakedNFT { nft_addr: addr(10), stake_time: 0 }).unwrap();
    assert_eq!(pool.claim_reward(150), Ok(40_000_000));
    assert_eq!(pool.pending_reward, 0);
    assert_eq!(pool.reward_time, 150);
    assert_eq!(pool.claim_reward(200), Ok(0));
}

#[test]
fn second_claim_at_same_time_pays_nothing() {
    let mut pool = UserPool::new(addr(1));
    pool.add_nft(StakedNFT { nft_addr: addr(10), stake_time: 0 }).unwrap();
    pool.add_nft(StakedNFT { nft_addr: addr(11), stake_time: 30 }).unwrap();
    pool.pending_reward = 5;
    assert_eq!(pool.claim_reward(300), Ok(100_000_000 + 80_000_000 + 5));
    assert_eq!(pool.claim_reward(300), Ok(0));
    assert_eq!(pool.pending_reward, 0);
}

#[test]
fn claim_before_settlement_is_clock_regression() {
    let mut pool = UserPool::new(addr(1));
    pool.claim_reward(100).unwrap();
    assert_eq!(pool.claim_reward(99), Err(StakingError::ClockRegression));
    assert_eq!(pool.reward_time, 100);
}

#[test]
fn claim_overflow_leaves_pool_unchanged() {
    let mut pool = UserPool::new(addr(1));
    pool.add_nft(StakedNFT { nft_addr: addr(10), stake_time: 0 }).unwrap();
    pool.pending_reward = u64::MAX;
    assert_eq!(pool.claim_reward(60), Err(StakingError::ArithmeticOverflow));
    assert_eq!(pool.pending_reward, u64::MAX);
    assert_eq!(pool.reward_time, 0);
}

#[test]
fn shared_pool_withdraw_checks_in_order() {
    let mut pool = GlobalLotteryPool::new();
    pool.add_nft(Item { owner: addr(1), nft_addr: addr(10), stake_time: 0 }).unwrap();
    pool.add_nft(Item { owner: addr(2), nft_addr: addr(11), stake_time: 0 }).unwrap();
    assert_eq!(pool.remove_nft(addr(1), addr(10), 2), Err(StakingError::IndexOutOfRange));
    assert_eq!(pool.remove_nft(addr(1), addr(10), 1), Err(StakingError::AddressMismatch));
    assert_eq!(pool.remove_nft(addr(1), addr(11), 1), Err(StakingError::OwnerMismatch));
    assert_eq!(pool.item_count(), 2);
    assert_eq!(pool.remove_nft(addr(1), addr(10), 0), Ok(()));
    assert_eq!(pool.item_count(), 1);
    assert_eq!(pool.item(0), Item { owner: addr(2), nft_addr: addr(11), stake_time: 0 });
}

#[test]
fn lottery_stake_and_withdraw_keep_both_pools_in_step() {
    let mut global = GlobalPool::new();
    let mut shared = initialize();
    let mut mine = initialize_lottery_pool(addr(1));
    let mut theirs = initialize_lottery_pool(addr(2));
    stake_nft_to_lottery(&mut global, &mut mine, &mut shared, addr(1), addr(10), 0).unwrap();
    stake_nft_to_lottery(&mut global, &mut theirs, &mut shared, addr(2), addr(11), 0).unwrap();
    assert_eq!(global.lottery_nft_count, 2);
    assert_eq!(shared.item_count(), 2);

    // a stale index hint fails, and nothing changes
    let r = withdraw_nft_from_lottery(&mut global, &mut mine, &mut shared, addr(1), addr(10), 1, 120);
    assert_eq!(r, Err(StakingError::AddressMismatch));
    assert_eq!((global.lottery_nft_count, mine.item_count(), shared.item_count()), (2, 1, 2));

    let r = withdraw_nft_from_lottery(&mut global, &mut mine, &mut shared, addr(1), addr(10), 0, 120);
    assert_eq!(r, Ok(40_000_000));
    assert_eq!((global.lottery_nft_count, mine.item_count(), shared.item_count()), (1, 0, 1));
    assert_eq!(shared.item(0).nft_addr, addr(11));
    assert_eq!(mine.pending_reward, 0);
}

#[test]
fn lottery_stake_by_stranger_is_rejected() {
    let mut global = GlobalPool::new();
    let mut shared = initialize();
    let mut mine = initialize_lottery_pool(addr(1));
    let r = stake_nft_to_lottery(&mut global, &mut mine, &mut shared, addr(2), addr(10), 0);
    assert_eq!(r, Err(StakingError::InvalidUserPool));
    assert_eq!((global.lottery_nft_count, mine.item_count(), shared.item_count()), (0, 0, 0));
}

#[test]
fn fixed_withdraw_defers_reward_until_claim() {
    let mut global = GlobalPool::new();
    let mut pool = initialize_fixed_pool(addr(1));
    stake_nft_to_fixed(&mut global, &mut pool, addr(1), addr(10), 0).unwrap();
    stake_nft_to_fixed(&mut global, &mut pool, addr(1), addr(11), 60).unwrap();
    assert_eq!(global.fixed_nft_count, 2);
    assert_eq!(withdraw_nft_from_fixed(&mut global, &mut pool, addr(1), addr(10), 180), Ok(60_000_000));
    assert_eq!(pool.pending_reward, 60_000_000);
    assert_eq!(global.fixed_nft_count, 1);
    assert_eq!(claim_reward(&mut pool, addr(1), 180), Ok(60_000_000 + 40_000_000));
    assert_eq!(pool.pending_reward, 0);
    assert_eq!(pool.reward_time, 180);
    assert_eq!(claim_reward(&mut pool, addr(2), 240), Err(StakingError::InvalidUserPool));
}

#[test]
fn fixed_withdraw_of_unknown_token_changes_nothing() {
    let mut global = GlobalPool::new();
    let mut pool = initialize_fixed_pool(addr(1));
    stake_nft_to_fixed(&mut global, &mut pool, addr(1), addr(10), 0).unwrap();
    assert_eq!(withdraw_nft_from_fixed(&mut global, &mut pool, addr(1), addr(12), 180), Err(StakingError::NotFound));
    assert_eq!((global.fixed_nft_count, pool.item_count(), pool.pending_reward), (1, 1, 0));
}

#[test]
fn fixed_stake_when_full_changes_nothing() {
    let mut global = GlobalPool::new();
    let mut pool = initialize_fixed_pool(addr(1));
    for i in 0..NFT_STAKE_MAX_COUNT {
        stake_nft_to_fixed(&mut global, &mut pool, addr(1), addr(i as u8), 0).unwrap();
    }
    assert_eq!(stake_nft_to_fixed(&mut global, &mut pool, addr(1), addr(99), 0), Err(StakingError::CapacityExceeded));
    assert_eq!(global.fixed_nft_count, NFT_STAKE_MAX_COUNT as u64);
}

#[test]
fn address_equality_compares_every_byte() {
    let mut b = [7u8; 32];
    b[31] = 8;
    assert!(addr(7) == addr(7));
    assert!(Address(b) != addr(7));
}

#[test]
fn preview_matches_withdraw_without_changing_the_pool() {
    let mut pool = UserPool::new(addr(1));
    pool.add_nft(StakedNFT { nft_addr: addr(10), stake_time: 0 }).unwrap();
    assert_eq!(pool.preview_withdraw(addr(1), addr(10), 125), Ok(40_000_000));
    assert_eq!(pool.preview_withdraw(addr(1), addr(11), 125), Err(StakingError::NotFound));
    assert_eq!(pool.item_count(), 1);
    assert_eq!(pool.remove_nft(addr(1), addr(10), 125), Ok(40_000_000));
}

#[test]
fn check_removal_changes_nothing() {
    let mut pool = GlobalLotteryPool::new();
    pool.add_nft(Item { owner: addr(1), nft_addr: addr(10), stake_time: 0 }).unwrap();
    assert_eq!(pool.check_removal(addr(1), addr(10), 0), Ok(()));
    assert_eq!(pool.check_removal(addr(2), addr(10), 0), Err(StakingError::OwnerMismatch));
    assert_eq!(pool.item_count(), 1);
}

#[test]
fn defaults_are_empty() {
    let g = GlobalPool::default();
    assert_eq!((g.lottery_nft_count, g.fixed_nft_count), (0, 0));
    let u = UserPool::default();
    assert_eq!((u.item_count(), u.reward_time, u.pending_reward), (0, 0, 0));
    assert!(u.owner == addr(0));
    assert_eq!(GlobalLotteryPool::default().item_count(), 0);
}

#[test]
fn find_nft_returns_first_match() {
    let mut pool = UserPool::new(addr(1));
    for (b, t) in [(10u8, 1i64), (11, 2), (11, 3)] {
        pool.add_nft(StakedNFT { nft_addr: addr(b), stake_time: t }).unwrap();
    }
    assert_eq!(pool.find_nft(addr(11)), Some(1));
    assert_eq!(pool.find_nft(addr(12)), None);
}
