//! Staking rewards: users stake tokens and earn rewards from a pool funded by
//! the admin, distributed in proportion to stake through a reward-per-token
//! accumulator. Rewards added while nothing is staked are held and folded in
//! when stakers join, or reclaimed by the admin.
use vstd::prelude::*;
use std::collections::HashMap;
use crate::common::{Address, Transfer, trunc_div, net_inflow, lemma_net_inflow_single};

verus! {

broadcast use vstd::std_specs::hash::group_hash_axioms;

/// Fixed-point scale of the reward-per-token accumulator.
pub const REWARD_SCALE: i128 = 1_000_000_000;

/// Errors returned by [`StakingContract`].
#[derive(Clone, Copy, Debug, PartialEq, Eq, Structural)]
pub enum StakingError {
    AlreadyInitialized,
    NotInitialized,
    InvalidAmount,
    Unauthorized,
}

/// Configuration fixed at initialization.
#[derive(Clone, Copy, Debug, PartialEq, Eq, Structural)]
pub struct StakingConfig {
    pub admin: Address,
    pub stake_token: Address,
    pub reward_token: Address,
    /// Ledgers between unstaking and withdrawal (0 = immediate).
    pub unbonding_period: u32,
    /// Account that receives slashed stake.
    pub slash_destination: Address,
}

/// Per-staker accounting.
#[derive(Clone, Copy, Debug, PartialEq, Eq, Structural)]
pub struct StakerInfo {
    pub stake: i128,
    /// Accumulator value up to which rewards have been credited.
    pub reward_per_token_paid: i128,
    /// Rewards credited and not yet paid out.
    pub rewards: i128,
}

/// Staking contract state.
pub struct StakingContract {
    /// The contract's own account (holds stake and rewards).
    pub address: Address,
    pub config: Option<StakingConfig>,
    pub total_staked: i128,
    /// Total reward tokens deposited into the pool (minus reclaimed ones).
    pub total_rewards: i128,
    /// Global reward-per-token accumulator, scaled by [`REWARD_SCALE`].
    pub reward_per_token_stored: i128,
    /// Rewards deposited while nothing was staked.
    pub undistributed_rewards: i128,
    pub version: u32,
    pub stakers: HashMap<u64, StakerInfo>,
}

/// `calculate_earned` as a mathematical function.
pub open spec fn earned_spec(stake: i128, rpt: i128, paid: i128, accrued: i128) -> int {
    accrued + trunc_div(stake * (rpt - paid), REWARD_SCALE as int)
}

/// Rewards earned: what was accrued plus the stake's share of the
/// accumulator growth since the staker was last updated.
pub fn calculate_earned(stake: i128, rpt: i128, paid: i128, accrued: i128) -> (r: i128)
    requires
        i128::MIN <= rpt - paid <= i128::MAX,
        i128::MIN <= stake * (rpt - paid) <= i128::MAX,
        i128::MIN <= earned_spec(stake, rpt, paid, accrued) <= i128::MAX,
    ensures
        r == earned_spec(stake, rpt, paid, accrued),
{
    accrued + stake * (rpt - paid) / REWARD_SCALE
}

impl StakingContract {
    pub open spec fn initialized(&self) -> bool {
        self.config is Some
    }

    pub open spec fn cfg(&self) -> StakingConfig {
        self.config->0
    }

    /// Accounting of `staker` (all zero when never seen).
    pub open spec fn info_of(&self, staker: Address) -> StakerInfo {
        if self.stakers@.contains_key(staker) {
            self.stakers@[staker]
        } else {
            StakerInfo { stake: 0, reward_per_token_paid: 0, rewards: 0 }
        }
    }

    /// Rewards `staker` has earned as of now.
    pub open spec fn earned_of(&self, staker: Address) -> int {
        let i = self.info_of(staker);
        earned_spec(i.stake, self.reward_per_token_stored, i.reward_per_token_paid, i.rewards)
    }

    /// Computing `staker`'s earned rewards stays within `i128`.
    pub open spec fn earned_fits(&self, staker: Address) -> bool {
        let i = self.info_of(staker);
        &&& i128::MIN <= self.reward_per_token_stored - i.reward_per_token_paid <= i128::MAX
        &&& i128::MIN <= i.stake * (self.reward_per_token_stored - i.reward_per_token_paid) <= i128::MAX
        &&& i128::MIN <= self.earned_of(staker) <= i128::MAX
    }

    /// Well-formedness: stake and held rewards are non-negative.
    pub open spec fn wf(&self) -> bool {
        &&& self.total_staked >= 0
        &&& self.undistributed_rewards >= 0
        &&& self.config is None ==> self.stakers@ == Map::<u64, StakerInfo>::empty()
    }

    /// A fresh, uninitialized staking contract whose own account is `address`.
    pub fn new(address: Address) -> (r: Self)
        ensures
            r.address == address,
            r.config is None,
            r.total_staked == 0,
            r.total_rewards == 0,
            r.reward_per_token_stored == 0,
            r.undistributed_rewards == 0,
            r.version == 0,
            r.stakers@ == Map::<u64, StakerInfo>::empty(),
            r.wf(),
    {
        StakingContract {
            address,
            config: None,
            total_staked: 0,
            total_rewards: 0,
            reward_per_token_stored: 0,
            undistributed_rewards: 0,
            version: 0,
            stakers: HashMap::new(),
        }
    }

    /// Initialize the staking contract.
    pub fn initialize(
        &mut self,
        admin: Address,
        stake_token: Address,
        reward_token: Address,
        unbonding_period: u32,
        slash_destination: Address,
    ) -> (r: Result<(), StakingError>)
        requires
            old(self).wf(),
        ensures
            final(self).wf(),
            old(self).initialized() ==> r == Err::<(), StakingError>(StakingError::AlreadyInitialized) && *final(self) == *old(self),
            !old(self).initialized() ==> r is Ok && *final(self) == (StakingContract {
                config: Some(StakingConfig { admin, stake_token, reward_token, unbonding_period, slash_destination }),
                total_staked: 0,
                total_rewards: 0,
                reward_per_token_stored: 0,
                undistributed_rewards: 0,
                version: 1,
                ..*old(self)
            }),
    {
        if self.config.is_some() {
            return Err(StakingError::AlreadyInitialized);
        }
        self.config = Some(StakingConfig { admin, stake_token, reward_token, unbonding_period, slash_destination });
        self.total_staked = 0;
        self.total_rewards = 0;
        self.reward_per_token_stored = 0;
        self.undistributed_rewards = 0;
        self.version = 1;
        Ok(())
    }

    /// The accumulator after folding held rewards into a pool of `total_staked` stake.
    pub open spec fn folded_rpt(rpt: i128, held: i128, total_staked: i128) -> int {
        if held <= 0 || total_staked <= 0 {
            rpt as int
        } else {
            rpt + trunc_div(held * REWARD_SCALE, total_staked as int)
        }
    }

    /// The error `stake` is refused with, if any.
    pub open spec fn stake_error(&self, amount: i128) -> Option<StakingError> {
        if !self.initialized() {
            Some(StakingError::NotInitialized)
        } else if amount <= 0 {
            Some(StakingError::InvalidAmount)
        } else {
            None
        }
    }

    /// Deposit `amount` stake tokens from `staker`. The staker's rewards are
    /// brought up to date first; rewards held while the pool was empty are
    /// then folded into the accumulator.
    pub fn stake(&mut self, staker: Address, amount: i128) -> (r: Result<Vec<Transfer>, StakingError>)
        requires
            old(self).wf(),
            old(self).stake_error(amount) is None ==> {
                &&& old(self).earned_fits(staker)
                &&& old(self).info_of(staker).stake + amount <= i128::MAX
                &&& old(self).total_staked + amount <= i128::MAX
                &&& old(self).undistributed_rewards * REWARD_SCALE <= i128::MAX
                &&& i128::MIN <= Self::folded_rpt(old(self).reward_per_token_stored, old(self).undistributed_rewards,
                    (old(self).total_staked + amount) as i128) <= i128::MAX
            },
        ensures
            final(self).wf(),
            r is Err <==> old(self).stake_error(amount) is Some,
            r matches Err(e) ==> Some(e) == old(self).stake_error(amount) && *final(self) == *old(self),
            r matches Ok(ts) ==> {
                let c = old(self).cfg();
                let new_total = (old(self).total_staked + amount) as i128;
                let i = old(self).info_of(staker);
                &&& ts@ == seq![Transfer::spec_new(c.stake_token, staker, old(self).address, amount)]
                &&& final(self).stakers@ == old(self).stakers@.insert(staker, StakerInfo {
                    stake: (i.stake + amount) as i128,
                    reward_per_token_paid: old(self).reward_per_token_stored,
                    rewards: old(self).earned_of(staker) as i128,
                })
                &&& final(self).total_staked == new_total
                &&& final(self).reward_per_token_stored == Self::folded_rpt(old(self).reward_per_token_stored, old(self).undistributed_rewards, new_total)
                &&& final(self).undistributed_rewards == 0
                &&& final(self).total_rewards == old(self).total_rewards
                &&& final(self).config == old(self).config
                &&& final(self).address == old(self).address
                &&& final(self).version == old(self).version
                &&& final(self).reward_per_token_stored >= old(self).reward_per_token_stored
                &&& staker != old(self).address ==> net_inflow(ts@, c.stake_token, old(self).address)
                    == final(self).total_staked - old(self).total_staked
            },
    {
        let c = match self.config {
            Some(c) => c,
            None => return Err(StakingError::NotInitialized),
        };
        if amount <= 0 {
            return Err(StakingError::InvalidAmount);
        }
        let i: StakerInfo = match self.stakers.get(&staker) {
            Some(i) => *i,
            None => StakerInfo { stake: 0, reward_per_token_paid: 0, rewards: 0 },
        };
        let rpt = self.reward_per_token_stored;
        let e = calculate_earned(i.stake, rpt, i.reward_per_token_paid, i.rewards);
        let mut transfers: Vec<Transfer> = Vec::new();
        transfers.push(Transfer { token: c.stake_token, from: staker, to: self.address, amount });
        self.stakers.insert(staker, StakerInfo { stake: i.stake + amount, reward_per_token_paid: rpt, rewards: e });
        let new_total = self.total_staked + amount;
        self.total_staked = new_total;
        let held = self.undistributed_rewards;
        if held > 0 && new_total > 0 {
            assert(held * REWARD_SCALE >= 0) by (nonlinear_arith)
                requires held > 0;
            self.reward_per_token_stored = rpt + held * REWARD_SCALE / new_total;
            self.undistributed_rewards = 0;
        }
        proof {
            lemma_net_inflow_single(transfers@[0], c.stake_token, self.address);
        }
        Ok(transfers)
    }

    /// The error `add_rewards` is refused with, if any.
    pub open spec fn add_rewards_error(&self, admin: Address, amount: i128) -> Option<StakingError> {
        if !self.initialized() {
            Some(StakingError::NotInitialized)
        } else if amount <= 0 {
            Some(StakingError::InvalidAmount)
        } else if admin != self.cfg().admin {
            Some(StakingError::Unauthorized)
        } else {
            None
        }
    }

    /// Deposit `amount` reward tokens from the admin. With stake in the pool,
    /// the held rewards and the new amount are spread over it; otherwise the
    /// amount is held until someone stakes.
    pub fn add_rewards(&mut self, admin: Address, amount: i128) -> (r: Result<Vec<Transfer>, StakingError>)
        requires
            old(self).wf(),
            old(self).add_rewards_error(admin, amount) is None ==> {
                &&& old(self).undistributed_rewards + amount <= i128::MAX
                &&& (old(self).undistributed_rewards + amount) * REWARD_SCALE <= i128::MAX
                &&& old(self).total_staked > 0 ==> old(self).reward_per_token_stored
                    + trunc_div((old(self).undistributed_rewards + amount) * REWARD_SCALE, old(self).total_staked as int) <= i128::MAX
                &&& i128::MIN <= old(self).total_rewards + amount <= i128::MAX
            },
        ensures
            final(self).wf(),
            r is Err <==> old(self).add_rewards_error(admin, amount) is Some,
            r matches Err(e) ==> Some(e) == old(self).add_rewards_error(admin, amount) && *final(self) == *old(self),
            r matches Ok(ts) ==> {
                let c = old(self).cfg();
                let pool = old(self).undistributed_rewards + amount;
                &&& ts@ == seq![Transfer::spec_new(c.reward_token, admin, old(self).address, amount)]
                &&& if old(self).total_staked > 0 {
                    &&& final(self).reward_per_token_stored == old(self).reward_per_token_stored
                        + trunc_div(pool * REWARD_SCALE, old(self).total_staked as int)
                    &&& final(self).undistributed_rewards == 0
                } else {
                    &&& final(self).reward_per_token_stored == old(self).reward_per_token_stored
                    &&& final(self).undistributed_rewards == pool
                }
                &&& final(self).total_rewards == old(self).total_rewards + amount
                &&& final(self).total_staked == old(self).total_staked
                &&& final(self).stakers@ == old(self).stakers@
                &&& final(self).config == old(self).config
                &&& final(self).address == old(self).address
                &&& final(self).version == old(self).version
                &&& final(self).reward_per_token_stored >= old(self).reward_per_token_stored
                &&& admin != old(self).address ==> net_inflow(ts@, c.reward_token, old(self).address)
                    == final(self).total_rewards - old(self).total_rewards
            },
    {
        let c = match self.config {
            Some(c) => c,
            None => return Err(StakingError::NotInitialized),
        };
        if amount <= 0 {
            return Err(StakingError::InvalidAmount);
        }
        if admin != c.admin {
            return Err(StakingError::Unauthorized);
        }
        let mut transfers: Vec<Transfer> = Vec::new();
        transfers.push(Transfer { token: c.reward_token, from: admin, to: self.address, amount });
        let held = self.undistributed_rewards;
        if self.total_staked > 0 {
            assert((held + amount) * REWARD_SCALE >= 0) by (nonlinear_arith)
                requires held + amount > 0;
            self.reward_per_token_stored = self.reward_per_token_stored + (held + amount) * REWARD_SCALE / self.total_staked;
            self.undistributed_rewards = 0;
        } else {
            self.undistributed_rewards = held + amount;
        }
        self.total_rewards = self.total_rewards + amount;
        proof {
            lemma_net_inflow_single(transfers@[0], c.reward_token, self.address);
        }
        Ok(transfers)
    }

    /// The error `reclaim_undistributed_rewards` is refused with, if any.
    pub open spec fn reclaim_error(&self, admin: Address) -> Option<StakingError> {
        if !self.initialized() {
            Some(StakingError::NotInitialized)
        } else if admin != self.cfg().admin {
            Some(StakingError::Unauthorized)
        } else if self.undistributed_rewards <= 0 {
            Some(StakingError::InvalidAmount)
        } else {
            None
        }
    }

    /// Send the rewards held while nothing was staked back to the admin. Returns the amount.
    pub fn reclaim_undistributed_rewards(&mut self, admin: Address) -> (r: Result<(i128, Vec<Transfer>), StakingError>)
        requires
            old(self).wf(),
            old(self).reclaim_error(admin) is None ==> old(self).total_rewards - old(self).undistributed_rewards >= i128::MIN,
        ensures
            final(self).wf(),
            r is Err <==> old(self).reclaim_error(admin) is Some,
            r matches Err(e) ==> Some(e) == old(self).reclaim_error(admin) && *final(self) == *old(self),
            r matches Ok((held, ts)) ==> {
                let c = old(self).cfg();
                &&& held == old(self).undistributed_rewards
                &&& ts@ == seq![Transfer::spec_new(c.reward_token, old(self).address, admin, held)]
                &&& *final(self) == (StakingContract {
                    undistributed_rewards: 0,
                    total_rewards: (old(self).total_rewards - held) as i128,
                    ..*old(self)
                })
                &&& admin != old(self).address ==> net_inflow(ts@, c.reward_token, old(self).address)
                    == final(self).total_rewards - old(self).total_rewards
            },
    {
        let c = match self.config {
            Some(c) => c,
            None => return Err(StakingError::NotInitialized),
        };
        if admin != c.admin {
            return Err(StakingError::Unauthorized);
        }
        let held = self.undistributed_rewards;
        if held <= 0 {
            return Err(StakingError::InvalidAmount);
        }
        let mut transfers: Vec<Transfer> = Vec::new();
        transfers.push(Transfer { token: c.reward_token, from: self.address, to: admin, amount: held });
        self.undistributed_rewards = 0;
        self.total_rewards = self.total_rewards - held;
        proof {
            lemma_net_inflow_single(transfers@[0], c.reward_token, self.address);
        }
        Ok((held, transfers))
    }

    /// Returns the rewards currently held for future stakers.
    pub fn get_undistributed_rewards(&self) -> (r: i128)
        ensures
            r == self.undistributed_rewards,
    {
        self.undistributed_rewards
    }

    /// Returns the total amount of stake tokens currently staked.
    pub fn get_total_staked(&self) -> (r: Result<i128, StakingError>)
        ensures
            r == (if self.initialized() { Ok::<i128, StakingError>(self.total_staked) } else { Err(StakingError::NotInitialized) }),
    {
        if self.config.is_none() {
            return Err(StakingError::NotInitialized);
        }
        Ok(self.total_staked)
    }

    /// Returns the total amount of reward tokens deposited into the pool.
    pub fn get_total_rewards(&self) -> (r: Result<i128, StakingError>)
        ensures
            r == (if self.initialized() { Ok::<i128, StakingError>(self.total_rewards) } else { Err(StakingError::NotInitialized) }),
    {
        if self.config.is_none() {
            return Err(StakingError::NotInitialized);
        }
        Ok(self.total_rewards)
    }

    /// Returns the rewards currently claimable by `staker`.
    pub fn get_earned(&self, staker: Address) -> (r: i128)
        requires
            self.earned_fits(staker),
        ensures
            r == self.earned_of(staker),
    {
        let i: StakerInfo = match self.stakers.get(&staker) {
            Some(i) => *i,
            None => StakerInfo { stake: 0, reward_per_token_paid: 0, rewards: 0 },
        };
        calculate_earned(i.stake, self.reward_per_token_stored, i.reward_per_token_paid, i.rewards)
    }

    /// Returns the current global reward-per-token accumulator.
    pub fn get_reward_per_token(&self) -> (r: i128)
        ensures
            r == self.reward_per_token_stored,
    {
        self.reward_per_token_stored
    }
}

/// Law: rewards already credited are never lost. With a non-negative stake
/// and an accumulator that has not gone back, the earned amount is the
/// credited `accrued` plus the stake's share of the growth rounded down: the
/// largest `g` with `REWARD_SCALE * g <= stake * (rpt - paid)`. With no
/// growth since the staker was last updated, it is exactly `accrued`, and
/// more growth never earns less.
pub proof fn lemma_earned_keeps_credit(stake: i128, rpt: i128, paid: i128, accrued: i128, later_rpt: i128)
    requires
        stake >= 0,
        paid <= rpt <= later_rpt,
    ensures
        earned_spec(stake, rpt, paid, accrued) >= accrued,
        REWARD_SCALE * (earned_spec(stake, rpt, paid, accrued) - accrued) <= stake * (rpt - paid),
        stake * (rpt - paid) < REWARD_SCALE * (earned_spec(stake, rpt, paid, accrued) - accrued + 1),
        earned_spec(stake, paid, paid, accrued) == accrued,
        earned_spec(stake, rpt, paid, accrued) <= earned_spec(stake, later_rpt, paid, accrued),
{
    let x = stake * (rpt - paid);
    let y = stake * (later_rpt - paid);
    assert(0 <= x <= y) by (nonlinear_arith)
        requires
            x == stake * (rpt - paid),
            y == stake * (later_rpt - paid),
            stake >= 0,
            paid <= rpt <= later_rpt;
    let q = x / 1_000_000_000;
    assert(1_000_000_000 * q <= x < 1_000_000_000 * (q + 1) && q >= 0) by (nonlinear_arith)
        requires
            q == x / 1_000_000_000,
            x >= 0;
    assert(x / 1_000_000_000 <= y / 1_000_000_000) by (nonlinear_arith)
        requires
            0 <= x <= y;
    assert(stake * (paid - paid) == 0) by (nonlinear_arith);
}

} // verus!
