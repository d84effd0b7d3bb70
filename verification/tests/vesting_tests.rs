use std::collections::HashMap;

use soroban_templates::common::Transfer;
use soroban_templates::vesting::{vested_amount, validate_schedule, VestingContract, VestingError};

const VESTING: u64 = 700;
const ADMIN: u64 = 1;
const BENEFICIARY: u64 = 2;
const TOKEN: u64 = 3;

struct Ledger {
    balances: HashMap<(u64, u64), i128>,
}

impl Ledger {
    fn new() -> Self {
        Ledger { balances: HashMap::new() }
    }
    fn mint(&mut self, to: u64, amount: i128) {
        *self.balances.entry((TOKEN, to)).or_insert(0) += amount;
    }
    fn balance(&self, who: u64) -> i128 {
        *self.balances.get(&(TOKEN, who)).unwrap_or(&0)
    }
    fn apply(&mut self, transfers: &[Transfer]) {
        for t in transfers {
            assert!(t.amount >= 0);
            assert!(*self.balances.get(&(t.token, t.from)).unwrap_or(&0) >= t.amount, "insufficient balance");
            *self.balances.entry((t.token, t.from)).or_insert(0) -= t.amount;
            *self.balances.entry((t.token, t.to)).or_insert(0) += t.amount;
        }
    }
}

/// A vesting contract, its token ledger and the current ledger sequence.
struct Env {
    vesting: VestingContract,
    ledger: Ledger,
    sequence: u32,
}

impl Env {
    fn bare() -> Self {
        Env { vesting: VestingContract::new(VESTING), ledger: Ledger::new(), sequence: 100 }
    }
    fn create(&mut self, beneficiary: u64, cliff: u32, end: u32, amount: i128) -> Result<(), VestingError> {
        let ts = self.vesting.create_schedule(beneficiary, cliff, end, amount, self.sequence)?;
        self.ledger.apply(&ts);
        Ok(())
    }
    fn claim(&mut self, beneficiary: u64) -> Result<i128, VestingError> {
        let (n, ts) = self.vesting.claim(beneficiary, self.sequence)?;
        self.ledger.apply(&ts);
        Ok(n)
    }
    fn revoke(&mut self, beneficiary: u64) -> Result<i128, VestingError> {
        let (n, ts) = self.vesting.revoke(beneficiary, self.sequence)?;
        self.ledger.apply(&ts);
        Ok(n)
    }
    fn admin_release(&mut self, beneficiary: u64) -> Result<i128, VestingError> {
        let (n, ts) = self.vesting.admin_release(beneficiary)?;
        self.ledger.apply(&ts);
        Ok(n)
    }
}

/// Initialized contract with one schedule: cliff 10 ledgers ahead, 100 ledgers of vesting, 1000 tokens.
fn setup() -> (Env, u32, u32, i128) {
    let mut env = Env::bare();
    let amount = 1_000i128;
    env.ledger.mint(ADMIN, amount * 2);
    let cliff = env.sequence + 10;
    let end = cliff + 100;
    env.vesting.initialize(ADMIN, TOKEN).unwrap();
    env.create(BENEFICIARY, cliff, end, amount).unwrap();
    (env, cliff, end, amount)
}

#[test]
fn test_initialize_stores_info() {
    let (env, cliff, end, amount) = setup();
    let info = env.vesting.get_info(BENEFICIARY).unwrap();
    assert_eq!(info.amount, amount);
    assert_eq!(info.cliff_ledger, cliff);
    assert_eq!(info.end_ledger, end);
    assert_eq!(info.claimed, 0);
    assert!(!info.revoked);
}

#[test]
fn test_test_initialize_twice_fails() {
    let (mut env, ..) = setup();
    assert_eq!(env.vesting.initialize(ADMIN, TOKEN), Err(VestingError::AlreadyInitialized));
}

#[test]
fn test_create_schedule_zero_amount_fails() {
    let mut env = Env::bare();
    env.vesting.initialize(ADMIN, TOKEN).unwrap();
    assert_eq!(env.create(BENEFICIARY, 110, 200, 0), Err(VestingError::InvalidAmount));
}

#[test]
fn test_create_schedule_invalid_schedule_fails() {
    let mut env = Env::bare();
    env.ledger.mint(ADMIN, 1000);
    env.vesting.initialize(ADMIN, TOKEN).unwrap();
    assert_eq!(env.create(BENEFICIARY, 200, 150, 1000), Err(VestingError::InvalidSchedule));
}

#[test]
fn test_claim_before_cliff_fails() {
    let (mut env, ..) = setup();
    assert_eq!(env.claim(BENEFICIARY), Err(VestingError::NothingToClaim));
}

#[test]
fn test_claim_at_cliff_returns_zero() {
    let (mut env, cliff, ..) = setup();
    env.sequence = cliff;
    assert_eq!(env.claim(BENEFICIARY), Err(VestingError::NothingToClaim));
}

#[test]
fn test_claim_halfway_through_vesting() {
    let (mut env, cliff, end, amount) = setup();
    env.sequence = cliff + (end - cliff) / 2;
    let claimed = env.claim(BENEFICIARY).unwrap();
    assert!(claimed > 0 && claimed <= amount / 2 + 1);
}

#[test]
fn test_claim_after_end_returns_full_amount() {
    let (mut env, _cliff, end, amount) = setup();
    env.sequence = end + 1;
    let claimed = env.claim(BENEFICIARY).unwrap();
    assert_eq!(claimed, amount);
    assert_eq!(env.ledger.balance(BENEFICIARY), amount);
}

#[test]
fn test_double_claim_second_returns_nothing() {
    let (mut env, _cliff, end, _amount) = setup();
    env.sequence = end + 1;
    env.claim(BENEFICIARY).unwrap();
    assert_eq!(env.claim(BENEFICIARY), Err(VestingError::NothingToClaim));
}

#[test]
fn test_revoke_before_cliff_returns_all() {
    let (mut env, _cliff, _end, amount) = setup();
    let before = env.ledger.balance(ADMIN);
    let returned = env.revoke(BENEFICIARY).unwrap();
    assert_eq!(returned, amount);
    assert_eq!(env.ledger.balance(ADMIN), before + amount);
}

#[test]
fn test_revoke_after_end_returns_nothing() {
    let (mut env, _cliff, end, _amount) = setup();
    env.sequence = end + 1;
    assert_eq!(env.revoke(BENEFICIARY), Ok(0));
}

#[test]
fn test_revoke_midway_returns_unvested_portion() {
    let (mut env, cliff, end, amount) = setup();
    let before = env.ledger.balance(ADMIN);
    env.sequence = cliff + (end - cliff) / 2;
    let returned = env.revoke(BENEFICIARY).unwrap();
    assert!(returned > 0 && returned < amount);
    assert_eq!(env.ledger.balance(ADMIN), before + returned);
}

#[test]
fn test_claim_after_revoke_gets_vested_portion() {
    let (mut env, cliff, end, amount) = setup();
    env.sequence = cliff + (end - cliff) / 2;
    let returned = env.revoke(BENEFICIARY).unwrap();
    let claimed = env.claim(BENEFICIARY).unwrap();
    assert_eq!(claimed + returned, amount);
}

#[test]
fn test_revoke_twice_fails() {
    let (mut env, ..) = setup();
    env.revoke(BENEFICIARY).unwrap();
    assert_eq!(env.revoke(BENEFICIARY), Err(VestingError::AlreadyRevoked));
}

#[test]
fn test_claim_after_full_revoke_fails() {
    let (mut env, ..) = setup();
    env.revoke(BENEFICIARY).unwrap();
    assert_eq!(env.claim(BENEFICIARY), Err(VestingError::NothingToClaim));
}

#[test]
fn test_get_info_uninitialized_returns_none() {
    let env = Env::bare();
    assert_eq!(env.vesting.get_info(BENEFICIARY), None);
}

#[test]
fn test_claimable_before_cliff_is_zero() {
    let (mut env, ..) = setup();
    assert_eq!(env.claim(BENEFICIARY), Err(VestingError::NothingToClaim));
}

#[test]
fn test_admin_release_before_cliff_unlocks_all() {
    let (mut env, _cliff, _end, amount) = setup();
    let released = env.admin_release(BENEFICIARY).unwrap();
    assert_eq!(released, amount);
    assert_eq!(env.ledger.balance(BENEFICIARY), amount);
    assert_eq!(env.vesting.get_info(BENEFICIARY).unwrap().claimed, amount);
}

#[test]
fn test_admin_release_after_cliff_unlocks_remaining() {
    let (mut env, cliff, end, amount) = setup();
    env.sequence = cliff + (end - cliff) / 2;
    let released = env.admin_release(BENEFICIARY).unwrap();
    assert_eq!(released, amount);
    assert_eq!(env.ledger.balance(BENEFICIARY), amount);
    assert_eq!(env.vesting.get_info(BENEFICIARY).unwrap().claimed, amount);
}

#[test]
fn test_admin_release_after_partial_claim_releases_remainder() {
    let (mut env, cliff, end, amount) = setup();
    env.sequence = cliff + (end - cliff) / 2;
    let claimed = env.claim(BENEFICIARY).unwrap();
    let released = env.admin_release(BENEFICIARY).unwrap();
    assert_eq!(claimed + released, amount);
    assert_eq!(env.ledger.balance(BENEFICIARY), amount);
}

#[test]
fn test_admin_release_twice_second_returns_nothing() {
    let (mut env, ..) = setup();
    env.admin_release(BENEFICIARY).unwrap();
    assert_eq!(env.admin_release(BENEFICIARY), Err(VestingError::NothingToClaim));
}

// ── further cases ────────────────────────────────────────────────────────────

#[test]
fn vested_amount_formula_values() {
    assert_eq!(vested_amount(1000, 110, 210, 109), 0);
    assert_eq!(vested_amount(1000, 110, 210, 110), 0);
    assert_eq!(vested_amount(1000, 110, 210, 160), 500);
    assert_eq!(vested_amount(1000, 110, 210, 143), 330);
    assert_eq!(vested_amount(1000, 110, 210, 210), 1000);
    assert_eq!(vested_amount(1000, 110, 210, 5000), 1000);
    // rounding toward zero for negative amounts
    assert_eq!(vested_amount(-7, 0, 2, 1), -3);
}

#[test]
fn vested_amount_is_monotone_and_bounded() {
    let mut prev = 0;
    for l in 100..260u32 {
        let v = vested_amount(1000, 110, 210, l);
        assert!(v >= prev && v <= 1000);
        prev = v;
    }
}

#[test]
fn validate_schedule_cases() {
    assert_eq!(validate_schedule(110, 210, 100), Ok(()));
    assert_eq!(validate_schedule(210, 210, 100), Err(VestingError::InvalidSchedule));
    assert_eq!(validate_schedule(110, 100, 100), Err(VestingError::InvalidSchedule));
    assert_eq!(validate_schedule(50, 90, 100), Err(VestingError::InvalidSchedule));
}

#[test]
fn create_schedule_before_initialize_fails() {
    let mut env = Env::bare();
    assert_eq!(env.create(BENEFICIARY, 110, 200, 10), Err(VestingError::NotInitialized));
    assert_eq!(env.claim(BENEFICIARY), Err(VestingError::NotInitialized));
    assert_eq!(env.revoke(BENEFICIARY), Err(VestingError::NotInitialized));
    assert_eq!(env.admin_release(BENEFICIARY), Err(VestingError::NotInitialized));
}

#[test]
fn duplicate_schedule_rejected() {
    let (mut env, cliff, end, _amount) = setup();
    assert_eq!(env.create(BENEFICIARY, cliff, end, 5), Err(VestingError::ScheduleAlreadyExists));
}

#[test]
fn unknown_beneficiary_rejected() {
    let (mut env, ..) = setup();
    assert_eq!(env.claim(99), Err(VestingError::ScheduleNotFound));
    assert_eq!(env.revoke(99), Err(VestingError::ScheduleNotFound));
    assert_eq!(env.admin_release(99), Err(VestingError::ScheduleNotFound));
}

#[test]
fn create_schedule_escrows_tokens() {
    let (env, _cliff, _end, amount) = setup();
    assert_eq!(env.ledger.balance(VESTING), amount);
    assert_eq!(env.ledger.balance(ADMIN), amount);
}

#[test]
fn revoke_midway_caps_and_ends_schedule() {
    let (mut env, cliff, end, amount) = setup();
    let mid = cliff + (end - cliff) / 2;
    env.sequence = mid;
    let returned = env.revoke(BENEFICIARY).unwrap();
    assert_eq!(returned, 500);
    let info = env.vesting.get_info(BENEFICIARY).unwrap();
    assert_eq!(info.amount, amount - returned);
    assert_eq!(info.end_ledger, mid);
    assert!(info.revoked);
    // everything still owed is held by the contract
    assert_eq!(env.ledger.balance(VESTING), info.amount - info.claimed);
}

#[test]
fn revoke_after_partial_claim_keeps_claimed() {
    let (mut env, cliff, _end, amount) = setup();
    env.sequence = cliff + 30;
    let claimed = env.claim(BENEFICIARY).unwrap();
    assert_eq!(claimed, 300);
    env.sequence = cliff + 40;
    let returned = env.revoke(BENEFICIARY).unwrap();
    assert_eq!(returned, 600);
    env.sequence = cliff + 90;
    let later = env.claim(BENEFICIARY).unwrap();
    assert_eq!(later, 100);
    assert_eq!(claimed + returned + later, amount);
    assert_eq!(env.ledger.balance(VESTING), 0);
}
