use std::collections::HashMap;

use soroban_templates::common::Transfer;
use soroban_templates::staking::{calculate_earned, StakingContract, StakingError, REWARD_SCALE};

const POOL: u64 = 600;
const ADMIN: u64 = 1;
const ALICE: u64 = 2;
const BOB: u64 = 3;
const STAKE: u64 = 10;
const REWARD: u64 = 11;

struct Ledger {
    balances: HashMap<(u64, u64), i128>,
}

impl Ledger {
    fn new() -> Self {
        Ledger { balances: HashMap::new() }
    }
    fn mint(&mut self, token: u64, to: u64, amount: i128) {
        *self.balances.entry((token, to)).or_insert(0) += amount;
    }
    fn balance(&self, token: u64, who: u64) -> i128 {
        *self.balances.get(&(token, who)).unwrap_or(&0)
    }
    fn apply(&mut self, transfers: &[Transfer]) {
        for t in transfers {
            assert!(t.amount >= 0);
            assert!(self.balance(t.token, t.from) >= t.amount, "insufficient balance");
            *self.balances.entry((t.token, t.from)).or_insert(0) -= t.amount;
            *self.balances.entry((t.token, t.to)).or_insert(0) += t.amount;
        }
    }
}

struct Env {
    s: StakingContract,
    ledger: Ledger,
}

impl Env {
    fn stake(&mut self, who: u64, amount: i128) -> Result<(), StakingError> {
        let ts = self.s.stake(who, amount)?;
        self.ledger.apply(&ts);
        Ok(())
    }
    fn add_rewards(&mut self, who: u64, amount: i128) -> Result<(), StakingError> {
        let ts = self.s.add_rewards(who, amount)?;
        self.ledger.apply(&ts);
        Ok(())
    }
}

fn setup() -> Env {
    let mut env = Env { s: StakingContract::new(POOL), ledger: Ledger::new() };
    env.ledger.mint(STAKE, ALICE, 10_000);
    env.ledger.mint(STAKE, BOB, 10_000);
    env.ledger.mint(REWARD, ADMIN, 1_000_000);
    env.s.initialize(ADMIN, STAKE, REWARD, 0, ADMIN).unwrap();
    env
}

#[test]
fn calculate_earned_values() {
    assert_eq!(calculate_earned(100, 3 * REWARD_SCALE, REWARD_SCALE, 5), 205);
    assert_eq!(calculate_earned(0, 7 * REWARD_SCALE, 0, 9), 9);
    assert_eq!(calculate_earned(3, REWARD_SCALE / 2, 0, 0), 1);
}

#[test]
fn initialize_twice_rejected() {
    let mut env = setup();
    assert_eq!(env.s.initialize(ADMIN, STAKE, REWARD, 0, ADMIN), Err(StakingError::AlreadyInitialized));
    assert_eq!(env.s.version, 1);
}

#[test]
fn uninitialized_rejects_calls() {
    let mut s = StakingContract::new(POOL);
    assert_eq!(s.stake(ALICE, 5).map(|_| ()), Err(StakingError::NotInitialized));
    assert_eq!(s.add_rewards(ADMIN, 5).map(|_| ()), Err(StakingError::NotInitialized));
    assert_eq!(s.get_total_staked(), Err(StakingError::NotInitialized));
    assert_eq!(s.get_total_rewards(), Err(StakingError::NotInitialized));
}

#[test]
fn stake_moves_tokens_into_pool() {
    let mut env = setup();
    env.stake(ALICE, 1_000).unwrap();
    assert_eq!(env.ledger.balance(STAKE, POOL), 1_000);
    assert_eq!(env.s.get_total_staked(), Ok(1_000));
    assert_eq!(env.stake(ALICE, 0), Err(StakingError::InvalidAmount));
}

#[test]
fn rewards_split_by_stake() {
    let mut env = setup();
    env.stake(ALICE, 1_000).unwrap();
    env.stake(BOB, 3_000).unwrap();
    env.add_rewards(ADMIN, 400).unwrap();
    assert_eq!(env.s.get_earned(ALICE), 100);
    assert_eq!(env.s.get_earned(BOB), 300);
    assert_eq!(env.s.get_total_rewards(), Ok(400));
    assert_eq!(env.ledger.balance(REWARD, POOL), 400);
}

#[test]
fn only_admin_adds_rewards() {
    let mut env = setup();
    env.ledger.mint(REWARD, ALICE, 100);
    assert_eq!(env.add_rewards(ALICE, 100), Err(StakingError::Unauthorized));
    assert_eq!(env.add_rewards(ADMIN, 0), Err(StakingError::InvalidAmount));
}

#[test]
fn rewards_before_any_stake_are_held_then_folded() {
    let mut env = setup();
    env.add_rewards(ADMIN, 500).unwrap();
    assert_eq!(env.s.get_undistributed_rewards(), 500);
    assert_eq!(env.s.get_reward_per_token(), 0);
    env.stake(ALICE, 1_000).unwrap();
    assert_eq!(env.s.get_undistributed_rewards(), 0);
    assert_eq!(env.s.get_earned(ALICE), 500);
}

#[test]
fn held_rewards_can_be_reclaimed() {
    let mut env = setup();
    env.add_rewards(ADMIN, 500).unwrap();
    assert_eq!(env.s.reclaim_undistributed_rewards(ALICE).map(|_| ()), Err(StakingError::Unauthorized));
    let (n, ts) = env.s.reclaim_undistributed_rewards(ADMIN).unwrap();
    env.ledger.apply(&ts);
    assert_eq!(n, 500);
    assert_eq!(env.ledger.balance(REWARD, ADMIN), 1_000_000);
    assert_eq!(env.s.get_total_rewards(), Ok(0));
    assert_eq!(env.s.reclaim_undistributed_rewards(ADMIN).map(|_| ()), Err(StakingError::InvalidAmount));
}

#[test]
fn reward_per_token_never_decreases() {
    let mut env = setup();
    let mut last = env.s.get_reward_per_token();
    for step in 0..6 {
        if step % 2 == 0 {
            env.stake(ALICE, 100 + step).unwrap();
        } else {
            env.add_rewards(ADMIN, 7 * step).unwrap();
        }
        let now = env.s.get_reward_per_token();
        assert!(now >= last);
        last = now;
    }
}

#[test]
fn late_staker_does_not_earn_past_rewards() {
    let mut env = setup();
    env.stake(ALICE, 1_000).unwrap();
    env.add_rewards(ADMIN, 1_000).unwrap();
    env.stake(BOB, 1_000).unwrap();
    assert_eq!(env.s.get_earned(BOB), 0);
    env.add_rewards(ADMIN, 1_000).unwrap();
    assert_eq!(env.s.get_earned(ALICE), 1_500);
    assert_eq!(env.s.get_earned(BOB), 500);
}
