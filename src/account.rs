use vstd::prelude::*;

use crate::constants::{ENFORCE_LIMIT_PERIOD, LIMIT_PERIOD, NFT_STAKE_MAX_COUNT, NFT_TOTAL_COUNT};
use crate::error::StakingError;
use crate::registry::{swap_remove, BoundedRegistry};
use crate::reward::{accrual, accrued_reward, reward_start};

verus! {

/// A 32-byte account or token identifier.
#[derive(Clone, Copy, Debug)]
pub struct Address(pub [u8; 32]);

impl PartialEq for Address {
    fn eq(&self, o: &Address) -> (r: bool) {
        let mut i: usize = 0;
        while i < 32
            invariant
                i <= 32,
                forall|j: int| 0 <= j < i ==> self.0[j] == o.0[j],
            decreases 32 - i,
        {
            if self.0[i] != o.0[i] {
                return false;
            }
            i = i + 1;
        }
        assert(self.0 =~= o.0);
        true
    }
}

impl vstd::std_specs::cmp::PartialEqSpecImpl for Address {
    open spec fn obeys_eq_spec() -> bool {
        true
    }

    open spec fn eq_spec(&self, o: &Address) -> bool {
        *self == *o
    }
}

impl Eq for Address {

}

/// Counters of the tokens staked in each pool kind.
#[derive(Clone, Copy, Debug, PartialEq, Eq, Structural)]
pub struct GlobalPool {
    pub lottery_nft_count: u64,
    pub fixed_nft_count: u64,
}

/// An entry of the shared lottery pool: who staked which token, and when.
#[derive(Clone, Copy, Debug, PartialEq, Eq)]
pub struct Item {
    pub owner: Address,
    pub nft_addr: Address,
    pub stake_time: i64,
}

/// An entry of a user's pool: which token was staked, and when.
#[derive(Clone, Copy, Debug, PartialEq, Eq)]
pub struct StakedNFT {
    pub nft_addr: Address,
    pub stake_time: i64,
}

impl GlobalPool {
    pub fn new() -> (r: Self)
        ensures
            r.lottery_nft_count == 0,
            r.fixed_nft_count == 0,
    {
        GlobalPool { lottery_nft_count: 0, fixed_nft_count: 0 }
    }
}

impl Default for GlobalPool {
    fn default() -> (r: Self)
        ensures
            r.lottery_nft_count == 0,
            r.fixed_nft_count == 0,
    {
        GlobalPool::new()
    }
}

/// The shared lottery pool: every token staked for the lottery, with its owner.
pub struct GlobalLotteryPool {
    items: BoundedRegistry<Item>,
}

impl GlobalLotteryPool {
    /// The live entries.
    pub closed spec fn entries(&self) -> Seq<Item> {
        self.items.view()
    }

    pub closed spec fn wf(&self) -> bool {
        &&& self.items.wf()
        &&& self.items.spec_capacity() == NFT_TOTAL_COUNT
    }

    /// The number of live entries never exceeds the pool's capacity.
    pub proof fn lemma_bounded(&self)
        requires
            self.wf(),
        ensures
            self.entries().len() <= NFT_TOTAL_COUNT,
    {
        self.items.lemma_len_bounded();
    }

    /// An empty pool.
    pub fn new() -> (r: Self)
        ensures
            r.wf(),
            r.entries() == Seq::<Item>::empty(),
    {
        let filler = Item { owner: Address([0u8; 32]), nft_addr: Address([0u8; 32]), stake_time: 0 };
        GlobalLotteryPool { items: BoundedRegistry::new(NFT_TOTAL_COUNT, filler) }
    }

    /// Number of live entries.
    pub fn item_count(&self) -> (r: usize)
        requires
            self.wf(),
        ensures
            r == self.entries().len(),
    {
        self.items.len()
    }

    /// The live entry at `index`.
    pub fn item(&self, index: usize) -> (r: Item)
        requires
            self.wf(),
            index < self.entries().len(),
        ensures
            r == self.entries()[index as int],
    {
        self.items.get(index)
    }

    /// Records `item`, or fails when the pool is full.
    pub fn add_nft(&mut self, item: Item) -> (r: Result<(), StakingError>)
        requires
            old(self).wf(),
        ensures
            final(self).wf(),
            old(self).entries().len() < NFT_TOTAL_COUNT ==> r == Ok::<(), StakingError>(())
                && final(self).entries() == old(self).entries().push(item),
            old(self).entries().len() >= NFT_TOTAL_COUNT ==> r == Err::<(), StakingError>(
                StakingError::CapacityExceeded,
            ) && *final(self) == *old(self),
    {
        self.items.append(item)
    }

    /// What removing the entry at `index` for `owner` and `nft_mint` yields.
    pub open spec fn removal_result(&self, owner: Address, nft_mint: Address, index: u64) -> Result<
        (),
        StakingError,
    > {
        let s = self.entries();
        if index >= s.len() {
            Err(StakingError::IndexOutOfRange)
        } else if s[index as int].nft_addr != nft_mint {
            Err(StakingError::AddressMismatch)
        } else if s[index as int].owner != owner {
            Err(StakingError::OwnerMismatch)
        } else {
            Ok(())
        }
    }

    /// Checks, without changing anything, whether `remove_nft` would succeed.
    pub fn check_removal(&self, owner: Address, nft_mint: Address, index: u64) -> (r: Result<
        (),
        StakingError,
    >)
        requires
            self.wf(),
        ensures
            r == self.removal_result(owner, nft_mint, index),
    {
        if index >= self.items.len() as u64 {
            return Err(StakingError::IndexOutOfRange);
        }
        let entry = self.items.get(index as usize);
        if !(entry.nft_addr == nft_mint) {
            return Err(StakingError::AddressMismatch);
        }
        if !(entry.owner == owner) {
            return Err(StakingError::OwnerMismatch);
        }
        Ok(())
    }

    /// Removes the entry at the index hint `index`, provided it holds `nft_mint`
    /// staked by `owner`; the last entry takes its place.
    pub fn remove_nft(&mut self, owner: Address, nft_mint: Address, index: u64) -> (r: Result<
        (),
        StakingError,
    >)
        requires
            old(self).wf(),
        ensures
            final(self).wf(),
            r == old(self).removal_result(owner, nft_mint, index),
            r is Ok ==> final(self).entries() == swap_remove(old(self).entries(), index as int),
            r is Err ==> *final(self) == *old(self),
    {
        let checked = self.check_removal(owner, nft_mint, index);
        if checked.is_err() {
            return checked;
        }
        proof {
            self.items.lemma_len_bounded();
        }
        let removed = self.items.remove_at(index as usize);
        Ok(())
    }
}

impl Default for GlobalLotteryPool {
    fn default() -> (r: Self)
        ensures
            r.wf(),
            r.entries() == Seq::<Item>::empty(),
    {
        GlobalLotteryPool::new()
    }
}

/// `i` is the first position in `s` that holds `nft`.
pub open spec fn is_first_match(s: Seq<StakedNFT>, nft: Address, i: int) -> bool {
    &&& 0 <= i < s.len()
    &&& s[i].nft_addr == nft
    &&& forall|j: int| 0 <= j < i ==> s[j].nft_addr != nft
}

/// Some entry of `s` holds `nft`.
pub open spec fn holds_nft(s: Seq<StakedNFT>, nft: Address) -> bool {
    exists|i: int| 0 <= i < s.len() && s[i].nft_addr == nft
}

/// The first position in `s` that holds `nft` (meaningful when `holds_nft`).
pub open spec fn first_match(s: Seq<StakedNFT>, nft: Address) -> int {
    choose|i: int| is_first_match(s, nft, i)
}

proof fn lemma_first_match_unique(s: Seq<StakedNFT>, nft: Address, i: int)
    requires
        is_first_match(s, nft, i),
    ensures
        first_match(s, nft) == i,
{
    let j = first_match(s, nft);
    assert(is_first_match(s, nft, j));
    if j < i {
        assert(s[j].nft_addr != nft);
    }
    if i < j {
        assert(s[i].nft_addr != nft);
    }
}

/// Reward that `item` has earned at `now`, with reward last settled at `settled`.
pub open spec fn item_accrual(settled: int, item: StakedNFT, now: int) -> int {
    accrual(reward_start(settled, item.stake_time as int), now)
}

/// Reward that all of `s` has earned at `now`.
pub open spec fn total_accrual(s: Seq<StakedNFT>, settled: int, now: int) -> int
    decreases s.len(),
{
    if s.len() == 0 {
        0
    } else {
        total_accrual(s.drop_last(), settled, now) + item_accrual(settled, s.last(), now)
    }
}

/// Some entry of `s` was staked after `now`.
pub open spec fn staked_after(s: Seq<StakedNFT>, now: int) -> bool {
    exists|i: int| 0 <= i < s.len() && now < s[i].stake_time
}

proof fn lemma_total_nonneg(s: Seq<StakedNFT>, settled: int, now: int)
    requires
        settled <= now,
        !staked_after(s, now),
    ensures
        total_accrual(s, settled, now) >= 0,
    decreases s.len(),
{
    if s.len() > 0 {
        assert(!staked_after(s.drop_last(), now)) by {
            if staked_after(s.drop_last(), now) {
                let i = choose|i: int| 0 <= i < s.len() - 1 && now < s.drop_last()[i].stake_time;
                assert(now < s[i].stake_time);
            }
        }
        lemma_total_nonneg(s.drop_last(), settled, now);
        assert(now >= s[s.len() - 1].stake_time);
        crate::reward::lemma_accrual_nonneg(reward_start(settled, s.last().stake_time as int), now);
    }
}

proof fn lemma_total_prefix(s: Seq<StakedNFT>, settled: int, now: int, k: int)
    requires
        settled <= now,
        !staked_after(s, now),
        0 <= k <= s.len(),
    ensures
        0 <= total_accrual(s.take(k), settled, now) <= total_accrual(s, settled, now),
    decreases s.len(),
{
    assert(!staked_after(s.take(k), now)) by {
        if staked_after(s.take(k), now) {
            let i = choose|i: int| 0 <= i < k && now < s.take(k)[i].stake_time;
            assert(now < s[i].stake_time);
        }
    }
    lemma_total_nonneg(s.take(k), settled, now);
    if k == s.len() {
        assert(s.take(k) =~= s);
    } else {
        let d = s.drop_last();
        assert(!staked_after(d, now)) by {
            if staked_after(d, now) {
                let i = choose|i: int| 0 <= i < d.len() && now < d[i].stake_time;
                assert(now < s[i].stake_time);
            }
        }
        lemma_total_prefix(d, settled, now, k);
        assert(d.take(k) =~= s.take(k));
        assert(now >= s[s.len() - 1].stake_time);
        crate::reward::lemma_accrual_nonneg(reward_start(settled, s.last().stake_time as int), now);
    }
}

/// No two entries of `s` hold the same token.
pub open spec fn distinct_nfts(s: Seq<StakedNFT>) -> bool {
    forall|a: int, b: int|
        0 <= a < s.len() && 0 <= b < s.len() && a != b ==> s[a].nft_addr != s[b].nft_addr
}

/// Withdrawing a token from a pool in which each token appears once leaves no
/// entry holding it, shortens the pool by one, and keeps every other entry.
pub proof fn lemma_withdraw_removes_token(s: Seq<StakedNFT>, nft: Address)
    requires
        holds_nft(s, nft),
        distinct_nfts(s),
    ensures
        swap_remove(s, first_match(s, nft)).len() == s.len() - 1,
        !holds_nft(swap_remove(s, first_match(s, nft)), nft),
        swap_remove(s, first_match(s, nft)).to_set() == s.to_set().remove(s[first_match(s, nft)]),
{
    let w = choose|w: int| 0 <= w < s.len() && s[w].nft_addr == nft;
    let i = first_match(s, nft);
    assert(is_first_match(s, nft, i)) by {
        assert forall|j: int| 0 <= j < s.len() && j != w implies s[j].nft_addr != nft by {
            assert(s[j].nft_addr != s[w].nft_addr);
        }
        assert(is_first_match(s, nft, w));
    }
    let r = swap_remove(s, i);
    let last = s.len() - 1;
    assert forall|k: int| 0 <= k < r.len() implies r[k].nft_addr != nft by {
        if k == i {
            assert(r[k] == s[last]);
            assert(s[last].nft_addr != s[i].nft_addr);
        } else {
            assert(r[k] == s[k]);
            assert(s[k].nft_addr != s[i].nft_addr);
        }
    }
    assert forall|x: StakedNFT| r.to_set().contains(x) <==> s.to_set().remove(s[i]).contains(x) by {
        if r.to_set().contains(x) {
            let k = choose|k: int| 0 <= k < r.len() && r[k] == x;
            let j = if k == i {
                last
            } else {
                k
            };
            assert(s[j] == x && j != i);
            assert(s[j].nft_addr != s[i].nft_addr);
            assert(s.to_set().contains(x));
        }
        if s.to_set().remove(s[i]).contains(x) {
            let j = choose|j: int| 0 <= j < s.len() && s[j] == x;
            assert(j != i);
            if j == last {
                assert(r[i] == x);
            } else {
                assert(r[j] == x);
            }
            assert(r.to_set().contains(x));
        }
    }
    assert(r.to_set() =~= s.to_set().remove(s[i]));
}

proof fn lemma_settled_now_earns_nothing(s: Seq<StakedNFT>, now: int)
    requires
        !staked_after(s, now),
    ensures
        total_accrual(s, now, now) == 0,
    decreases s.len(),
{
    if s.len() > 0 {
        assert(!staked_after(s.drop_last(), now)) by {
            if staked_after(s.drop_last(), now) {
                let i = choose|i: int| 0 <= i < s.len() - 1 && now < s.drop_last()[i].stake_time;
                assert(now < s[i].stake_time);
            }
        }
        lemma_settled_now_earns_nothing(s.drop_last(), now);
        assert(now >= s[s.len() - 1].stake_time);
        assert(reward_start(now, s.last().stake_time as int) == now);
    }
}

/// Withdrawing on behalf of anyone but the pool's owner is refused with
/// `OwnerMismatch`, whatever the token and the time.
pub proof fn lemma_foreign_owner_rejected(pool: UserPool, owner: Address, nft_mint: Address, now: i64)
    requires
        owner != pool.owner,
    ensures
        pool.withdraw_result(owner, nft_mint, now) == Err::<u64, StakingError>(
            StakingError::OwnerMismatch,
        ),
{
}

/// A claim made right after a successful claim at the same time pays nothing
/// and leaves nothing pending.
pub proof fn lemma_second_claim_pays_nothing(before: UserPool, after: UserPool, now: i64)
    requires
        before.claim_result(now) is Ok,
        after.staked() == before.staked(),
        after.reward_time == now,
        after.pending_reward == 0,
    ensures
        after.claim_result(now) == Ok::<u64, StakingError>(0),
{
    lemma_settled_now_earns_nothing(after.staked(), now as int);
}

/// A user's pool of staked tokens, with its reward settlement state.
pub struct UserPool {
    pub owner: Address,
    /// The staked tokens.
    pub items: BoundedRegistry<StakedNFT>,
    /// When reward was last settled.
    pub reward_time: i64,
    /// Reward accrued by withdrawn tokens and not yet claimed.
    pub pending_reward: u64,
}

impl UserPool {
    /// The live entries.
    pub open spec fn staked(&self) -> Seq<StakedNFT> {
        self.items.view()
    }

    pub open spec fn wf(&self) -> bool {
        &&& self.items.wf()
        &&& self.items.spec_capacity() == NFT_STAKE_MAX_COUNT
    }

    /// The number of live entries never exceeds the pool's capacity.
    pub proof fn lemma_bounded(&self)
        requires
            self.wf(),
        ensures
            self.staked().len() <= NFT_STAKE_MAX_COUNT,
    {
        self.items.lemma_len_bounded();
    }

    /// An empty pool owned by `owner`, with nothing settled or pending.
    pub fn new(owner: Address) -> (r: Self)
        ensures
            r.wf(),
            r.owner == owner,
            r.staked() == Seq::<StakedNFT>::empty(),
            r.reward_time == 0,
            r.pending_reward == 0,
    {
        let filler = StakedNFT { nft_addr: Address([0u8; 32]), stake_time: 0 };
        UserPool {
            owner,
            items: BoundedRegistry::new(NFT_STAKE_MAX_COUNT, filler),
            reward_time: 0,
            pending_reward: 0,
        }
    }

    /// Number of live entries.
    pub fn item_count(&self) -> (r: usize)
        requires
            self.wf(),
        ensures
            r == self.staked().len(),
    {
        self.items.len()
    }

    /// The live entry at `index`.
    pub fn item(&self, index: usize) -> (r: StakedNFT)
        requires
            self.wf(),
            index < self.staked().len(),
        ensures
            r == self.staked()[index as int],
    {
        self.items.get(index)
    }

    /// Records `item`, or fails when the pool is full.
    pub fn add_nft(&mut self, item: StakedNFT) -> (r: Result<(), StakingError>)
        requires
            old(self).wf(),
        ensures
            final(self).wf(),
            final(self).owner == old(self).owner,
            final(self).reward_time == old(self).reward_time,
            final(self).pending_reward == old(self).pending_reward,
            old(self).staked().len() < NFT_STAKE_MAX_COUNT ==> r == Ok::<(), StakingError>(())
                && final(self).staked() == old(self).staked().push(item),
            old(self).staked().len() >= NFT_STAKE_MAX_COUNT ==> r == Err::<(), StakingError>(
                StakingError::CapacityExceeded,
            ) && *final(self) == *old(self),
    {
        self.items.append(item)
    }

    /// The position of the first live entry that holds `nft_mint`.
    pub fn find_nft(&self, nft_mint: Address) -> (r: Option<usize>)
        requires
            self.wf(),
        ensures
            r is Some ==> is_first_match(self.staked(), nft_mint, r->Some_0 as int) && r->Some_0
                == first_match(self.staked(), nft_mint),
            r is None ==> !holds_nft(self.staked(), nft_mint),
    {
        let n = self.items.len();
        let mut i: usize = 0;
        while i < n
            invariant
                self.wf(),
                n == self.staked().len(),
                i <= n,
                forall|j: int| 0 <= j < i ==> self.staked()[j].nft_addr != nft_mint,
            decreases n - i,
        {
            let entry = self.items.get(i);
            if entry.nft_addr == nft_mint {
                proof {
                    lemma_first_match_unique(self.staked(), nft_mint, i as int);
                }
                return Some(i);
            }
            i = i + 1;
        }
        None
    }

    /// What withdrawing `nft_mint` at `now` on behalf of `owner` yields: the
    /// reward earned by that token since `reward_start`, or why it is refused.
    pub open spec fn withdraw_result(&self, owner: Address, nft_mint: Address, now: i64) -> Result<
        u64,
        StakingError,
    > {
        let s = self.staked();
        if owner != self.owner {
            Err(StakingError::OwnerMismatch)
        } else if !holds_nft(s, nft_mint) {
            Err(StakingError::NotFound)
        } else {
            let item = s[first_match(s, nft_mint)];
            let start = reward_start(self.reward_time as int, item.stake_time as int);
            if now < start {
                Err(StakingError::ClockRegression)
            } else if ENFORCE_LIMIT_PERIOD && now - item.stake_time < LIMIT_PERIOD {
                Err(StakingError::InvalidWithdrawTime)
            } else if accrual(start, now as int) > u64::MAX {
                Err(StakingError::ArithmeticOverflow)
            } else {
                Ok(accrual(start, now as int) as u64)
            }
        }
    }

    fn locate_withdrawal(&self, owner: Address, nft_mint: Address, now: i64) -> (r: Result<
        (usize, u64),
        StakingError,
    >)
        requires
            self.wf(),
        ensures
            r is Ok ==> is_first_match(self.staked(), nft_mint, r->Ok_0.0 as int) && r->Ok_0.0
                == first_match(self.staked(), nft_mint) && holds_nft(
                self.staked(),
                nft_mint,
            ) && self.withdraw_result(owner, nft_mint, now) == Ok::<u64, StakingError>(
                r->Ok_0.1,
            ),
            r is Err ==> self.withdraw_result(owner, nft_mint, now) == Err::<u64, StakingError>(
                r->Err_0,
            ),
    {
        if !(owner == self.owner) {
            return Err(StakingError::OwnerMismatch);
        }
        let index = match self.find_nft(nft_mint) {
            Some(i) => i,
            None => {
                return Err(StakingError::NotFound);
            },
        };
        let item = self.items.get(index);
        let start = if self.reward_time < item.stake_time {
            item.stake_time
        } else {
            self.reward_time
        };
        if now < start {
            return Err(StakingError::ClockRegression);
        }
        if ENFORCE_LIMIT_PERIOD && (now as i128) - (item.stake_time as i128) < LIMIT_PERIOD as i128 {
            return Err(StakingError::InvalidWithdrawTime);
        }
        match accrued_reward(start, now) {
            Ok(reward) => Ok((index, reward)),
            Err(e) => Err(e),
        }
    }

    /// The reward that `remove_nft` would return, computed without changing
    /// anything.
    pub fn preview_withdraw(&self, owner: Address, nft_mint: Address, now: i64) -> (r: Result<
        u64,
        StakingError,
    >)
        requires
            self.wf(),
        ensures
            r == self.withdraw_result(owner, nft_mint, now),
    {
        match self.locate_withdrawal(owner, nft_mint, now) {
            Ok(found) => Ok(found.1),
            Err(e) => Err(e),
        }
    }

    /// Withdraws the first entry that holds `nft_mint` and returns the reward it
    /// earned since `reward_start`; the last entry takes its place. Reward
    /// settlement is left as it was.
    pub fn remove_nft(&mut self, owner: Address, nft_mint: Address, now: i64) -> (r: Result<
        u64,
        StakingError,
    >)
        requires
            old(self).wf(),
        ensures
            final(self).wf(),
            r == old(self).withdraw_result(owner, nft_mint, now),
            r is Ok ==> final(self).staked() == swap_remove(
                old(self).staked(),
                first_match(old(self).staked(), nft_mint),
            ) && final(self).owner == old(self).owner && final(self).reward_time == old(
                self,
            ).reward_time && final(self).pending_reward == old(self).pending_reward,
            r is Err ==> *final(self) == *old(self),
    {
        match self.locate_withdrawal(owner, nft_mint, now) {
            Ok(found) => {
                let removed = self.items.remove_at(found.0);
                Ok(found.1)
            },
            Err(e) => Err(e),
        }
    }
    /// What claiming at `now` yields: the reward of every live entry since its
    /// `reward_start`, plus what is pending, or why it is refused.
    pub open spec fn claim_result(&self, now: i64) -> Result<u64, StakingError> {
        let s = self.staked();
        let total = total_accrual(s, self.reward_time as int, now as int) + self.pending_reward;
        if now < self.reward_time || staked_after(s, now as int) {
            Err(StakingError::ClockRegression)
        } else if total > u64::MAX {
            Err(StakingError::ArithmeticOverflow)
        } else {
            Ok(total as u64)
        }
    }

    /// Settles reward at `now`: returns what every live entry has earned since
    /// its `reward_start`, plus what is pending; then nothing is pending and
    /// reward is settled at `now`.
    pub fn claim_reward(&mut self, now: i64) -> (r: Result<u64, StakingError>)
        requires
            old(self).wf(),
        ensures
            final(self).wf(),
            r == old(self).claim_result(now),
            r is Ok ==> final(self).staked() == old(self).staked() && final(self).owner == old(
                self,
            ).owner && final(self).reward_time == now && final(self).pending_reward == 0,
            r is Err ==> *final(self) == *old(self),
    {
        if now < self.reward_time {
            return Err(StakingError::ClockRegression);
        }
        let n = self.items.len();
        let mut i: usize = 0;
        while i < n
            invariant
                self.wf(),
                n == self.staked().len(),
                i <= n,
                forall|j: int| 0 <= j < i ==> self.staked()[j].stake_time <= now,
            decreases n - i,
        {
            let item = self.items.get(i);
            if now < item.stake_time {
                return Err(StakingError::ClockRegression);
            }
            i = i + 1;
        }
        let ghost s = self.staked();
        let ghost settled = self.reward_time as int;
        assert(!staked_after(s, now as int));
        let mut total: u64 = 0;
        i = 0;
        while i < n
            invariant
                self.wf(),
                s == self.staked(),
                settled == self.reward_time,
                settled <= now,
                n == s.len(),
                i <= n,
                !staked_after(s, now as int),
                total == total_accrual(s.take(i as int), settled, now as int),
            decreases n - i,
        {
            let item = self.items.get(i);
            let start = if self.reward_time < item.stake_time {
                item.stake_time
            } else {
                self.reward_time
            };
            assert(s.take(i + 1).drop_last() =~= s.take(i as int));
            proof {
                lemma_total_prefix(s, settled, now as int, i + 1);
                lemma_total_prefix(s, settled, now as int, i as int);
            }
            let reward = match accrued_reward(start, now) {
                Ok(x) => x,
                Err(e) => {
                    return Err(StakingError::ArithmeticOverflow);
                },
            };
            if reward > u64::MAX - total {
                return Err(StakingError::ArithmeticOverflow);
            }
            total = total + reward;
            i = i + 1;
        }
        assert(s.take(n as int) =~= s);
        if self.pending_reward > u64::MAX - total {
            return Err(StakingError::ArithmeticOverflow);
        }
        total = total + self.pending_reward;
        self.pending_reward = 0;
        self.reward_time = now;
        Ok(total)
    }
}

impl Default for UserPool {
    fn default() -> (r: Self)
        ensures
            r.wf(),
            forall|i: int| 0 <= i < 32 ==> r.owner.0[i] == 0,
            r.staked() == Seq::<StakedNFT>::empty(),
            r.reward_time == 0,
            r.pending_reward == 0,
    {
        UserPool::new(Address([0u8; 32]))
    }
}

} // verus!
