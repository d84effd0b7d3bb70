use std::collections::HashMap;

use soroban_templates::common::Transfer;
use soroban_templates::swap::{BasketLeg, SwapContract, SwapError, SwapState};

const SWAP: u64 = 800;
const PARTY_A: u64 = 1;
const PARTY_B: u64 = 2;
const TREASURY: u64 = 3;
const TOKEN_A: u64 = 10;
const TOKEN_B: u64 = 11;

#[derive(Clone)]
struct Ledger {
    balances: HashMap<(u64, u64), i128>,
}

impl Ledger {
    fn new() -> Self {
        Ledger { balances: HashMap::new() }
    }
    fn mint(&mut self, token: u64, to: u64, amount: i128) {
        *self.balances.entry((token, to)).or_insert(0) += amount;
    }
    fn balance(&self, token: u64, who: u64) -> i128 {
        *self.balances.get(&(token, who)).unwrap_or(&0)
    }
    /// Applies every transfer or none of them.
    fn try_apply(&mut self, transfers: &[Transfer]) -> bool {
        let mut next = self.clone();
        for t in transfers {
            if t.amount < 0 || next.balance(t.token, t.from) < t.amount {
                return false;
            }
            *next.balances.entry((t.token, t.from)).or_insert(0) -= t.amount;
            *next.balances.entry((t.token, t.to)).or_insert(0) += t.amount;
        }
        *self = next;
        true
    }
    fn apply(&mut self, transfers: &[Transfer]) {
        for t in transfers {
            assert!(t.amount >= 0);
            assert!(self.balance(t.token, t.from) >= t.amount, "insufficient balance");
            *self.balances.entry((t.token, t.from)).or_insert(0) -= t.amount;
            *self.balances.entry((t.token, t.to)).or_insert(0) += t.amount;
        }
    }
}

struct Env {
    swap: SwapContract,
    ledger: Ledger,
    seq: u32,
}

impl Env {
    fn propose(&mut self, amount_a: i128, amount_b: i128, expires_at: u32) -> Result<u32, SwapError> {
        let (id, ts) = self.swap.propose_swap(PARTY_A, TOKEN_A, amount_a, TOKEN_B, amount_b, expires_at, self.seq)?;
        self.ledger.apply(&ts);
        Ok(id)
    }
    fn accept(&mut self, id: u32) -> Result<(), SwapError> {
        let (_, ts) = self.swap.accept_swap(id, PARTY_B, self.seq)?;
        self.ledger.apply(&ts);
        Ok(())
    }
    fn propose_with_options(&mut self, amount_a: i128, amount_b: i128, expires_at: u32, allow_partial: bool, escrowed: bool)
        -> Result<u32, SwapError>
    {
        let (id, ts) = self.swap.propose_swap_with_options(
            PARTY_A, TOKEN_A, amount_a, TOKEN_B, amount_b, expires_at, allow_partial, escrowed, self.seq,
        )?;
        self.ledger.apply(&ts);
        Ok(id)
    }
    fn accept_partial(&mut self, id: u32, fill: i128) -> Result<(), SwapError> {
        let ts = self.swap.accept_swap_partial(PARTY_B, id, fill, self.seq)?;
        self.ledger.apply(&ts);
        Ok(())
    }
    fn propose_basket(&mut self, offers: Vec<BasketLeg>, demands: Vec<BasketLeg>, expires_at: u32) -> Result<u32, SwapError> {
        let (id, ts) = self.swap.propose_basket_swap(PARTY_A, offers, demands, expires_at, self.seq)?;
        self.ledger.apply(&ts);
        Ok(id)
    }
    /// Takes a basket swap; when a leg cannot be paid nothing is kept.
    fn accept_basket(&mut self, id: u32) -> Result<(), String> {
        let before = self.swap.clone();
        let ts = self.swap.accept_basket_swap(id, PARTY_B, self.seq).map_err(|e| format!("{:?}", e))?;
        if self.ledger.try_apply(&ts) {
            Ok(())
        } else {
            self.swap = before;
            Err("insufficient balance".to_string())
        }
    }
    fn cancel(&mut self, id: u32) -> Result<(), SwapError> {
        let ts = self.swap.cancel_swap(id)?;
        self.ledger.apply(&ts);
        Ok(())
    }
}

/// Both parties hold 100 000 of their token; the fee is 0.5% to the treasury.
fn setup() -> Env {
    let mut env = Env { swap: SwapContract::new(SWAP), ledger: Ledger::new(), seq: 100 };
    env.ledger.mint(TOKEN_A, PARTY_A, 100_000);
    env.ledger.mint(TOKEN_B, PARTY_B, 100_000);
    env.swap.initialize(PARTY_A, TREASURY, 50).unwrap();
    env
}

#[test]
fn test_propose_and_accept_full_swap() {
    let mut env = setup();
    let expires_at = env.seq + 100;
    let id = env.propose(1_000, 500, expires_at).unwrap();
    env.accept(id).unwrap();
    let swap = env.swap.get_swap(id).unwrap();
    assert_eq!(swap.state, SwapState::Executed);
    assert_eq!(swap.filled_amount, 1_000);
    assert_eq!(env.ledger.balance(TOKEN_A, PARTY_B), 1_000);
    assert_eq!(env.ledger.balance(TOKEN_B, TREASURY), 2);
}

#[test]
fn test_partial_fill_multiple_takes() {
    let mut env = setup();
    let expires_at = env.seq + 100;
    let id = env.propose_with_options(1_000, 500, expires_at, true, false).unwrap();
    env.accept_partial(id, 400).unwrap();
    let swap = env.swap.get_swap(id).unwrap();
    assert_eq!(swap.state, SwapState::Pending);
    assert_eq!(swap.filled_amount, 400);
    env.accept_partial(id, 600).unwrap();
    let swap = env.swap.get_swap(id).unwrap();
    assert_eq!(swap.state, SwapState::Executed);
    assert_eq!(swap.filled_amount, 1_000);
}

#[test]
fn test_partial_fill_rejected_when_not_enabled() {
    let mut env = setup();
    let expires_at = env.seq + 100;
    let id = env.propose(1_000, 500, expires_at).unwrap();
    assert_eq!(env.accept_partial(id, 500), Err(SwapError::PartialFillNotAllowed));
}

#[test]
fn test_escrowed_cancel_returns_unfilled_tokens() {
    let mut env = setup();
    let balance_before = env.ledger.balance(TOKEN_A, PARTY_A);
    let expires_at = env.seq + 100;
    let id = env.propose_with_options(1_000, 500, expires_at, true, true).unwrap();
    assert_eq!(env.ledger.balance(TOKEN_A, SWAP), 1_000);
    assert_eq!(env.ledger.balance(TOKEN_A, PARTY_A), balance_before - 1_000);
    env.accept_partial(id, 400).unwrap();
    assert_eq!(env.ledger.balance(TOKEN_A, SWAP), 600);
    env.cancel(id).unwrap();
    assert_eq!(env.ledger.balance(TOKEN_A, SWAP), 0);
    assert_eq!(env.ledger.balance(TOKEN_A, PARTY_A), balance_before - 400);
    assert_eq!(env.swap.get_swap(id).unwrap().state, SwapState::Cancelled);
}

#[test]
fn test_escrowed_accept_transfers_from_contract() {
    let mut env = setup();
    let expires_at = env.seq + 100;
    let id = env.propose_with_options(900, 450, expires_at, false, true).unwrap();
    assert!(env.swap.get_swap(id).unwrap().escrowed);
    env.accept(id).unwrap();
    assert_eq!(env.ledger.balance(TOKEN_A, SWAP), 0);
    assert_eq!(env.ledger.balance(TOKEN_A, PARTY_B), 900);
    assert_eq!(env.swap.get_swap(id).unwrap().state, SwapState::Executed);
}

#[test]
fn test_basket_swap_success() {
    let mut env = setup();
    let token_c: u64 = 12;
    let token_d: u64 = 13;
    env.ledger.mint(token_c, PARTY_A, 2_000);
    env.ledger.mint(token_d, PARTY_B, 2_000);
    let offers = vec![BasketLeg { token: TOKEN_A, amount: 500 }, BasketLeg { token: token_c, amount: 700 }];
    let demands = vec![BasketLeg { token: TOKEN_B, amount: 300 }, BasketLeg { token: token_d, amount: 400 }];
    let expires_at = env.seq + 100;
    let id = env.propose_basket(offers, demands, expires_at).unwrap();
    env.accept_basket(id).unwrap();
    let info = env.swap.get_basket_swap(id).unwrap();
    assert_eq!(info.state, SwapState::Executed);
    assert_eq!(env.ledger.balance(token_c, PARTY_B), 700);
    assert_eq!(env.ledger.balance(token_d, PARTY_A), 400);
}

#[test]
fn test_basket_swap_atomic_failure_rolls_back() {
    let mut env = setup();
    let offers = vec![BasketLeg { token: TOKEN_A, amount: 500 }];
    let demands = vec![BasketLeg { token: TOKEN_B, amount: 200_000 }];
    let expires_at = env.seq + 100;
    let id = env.propose_basket(offers, demands, expires_at).unwrap();
    let party_a_before = env.ledger.balance(TOKEN_B, PARTY_A);
    let party_b_before = env.ledger.balance(TOKEN_A, PARTY_B);
    let result = env.accept_basket(id);
    assert!(result.is_err());
    assert_eq!(env.ledger.balance(TOKEN_B, PARTY_A), party_a_before);
    assert_eq!(env.ledger.balance(TOKEN_A, PARTY_B), party_b_before);
    assert_eq!(env.swap.get_basket_swap(id).unwrap().state, SwapState::Pending);
}

#[test]
fn basket_validation_and_cancel_refund() {
    let mut env = setup();
    let leg = BasketLeg { token: TOKEN_A, amount: 500 };
    let want = BasketLeg { token: TOKEN_B, amount: 10 };
    assert_eq!(env.swap.propose_basket_swap(PARTY_A, vec![], vec![want], env.seq + 5, env.seq).map(|_| ()),
        Err(SwapError::InvalidAmount));
    assert_eq!(env.swap.propose_basket_swap(PARTY_A, vec![leg], vec![BasketLeg { token: TOKEN_B, amount: 0 }],
        env.seq + 5, env.seq).map(|_| ()), Err(SwapError::InvalidAmount));
    assert_eq!(env.swap.propose_basket_swap(PARTY_A, vec![leg], vec![want], env.seq, env.seq).map(|_| ()),
        Err(SwapError::InvalidDeadline));
    let id = env.propose_basket(vec![leg], vec![want], env.seq + 5).unwrap();
    assert_eq!(env.ledger.balance(TOKEN_A, SWAP), 500);
    let ts = env.swap.cancel_basket_swap(id).unwrap();
    env.ledger.apply(&ts);
    assert_eq!(env.ledger.balance(TOKEN_A, SWAP), 0);
    assert_eq!(env.ledger.balance(TOKEN_A, PARTY_A), 100_000);
    assert_eq!(env.swap.get_basket_swap(id).unwrap().state, SwapState::Cancelled);
    assert_eq!(env.accept_basket(id), Err("AlreadyCancelled".to_string()));
    assert!(env.swap.get_basket_swap(7).is_err());
}

#[test]
fn partial_fill_prices_and_limits() {
    let mut env = setup();
    let id = env.propose_with_options(1_000, 500, env.seq + 10, true, true).unwrap();
    assert_eq!(env.accept_partial(id, 0), Err(SwapError::InvalidAmount));
    assert_eq!(env.accept_partial(id, 1_001), Err(SwapError::InvalidAmount));
    env.accept_partial(id, 400).unwrap();
    // 400 of 1 000 costs 200 of 500; the fee is 0.5% of that, rounded down
    assert_eq!(env.ledger.balance(TOKEN_B, PARTY_A), 199);
    assert_eq!(env.ledger.balance(TOKEN_B, TREASURY), 1);
    assert_eq!(env.ledger.balance(TOKEN_A, PARTY_B), 400);
    env.accept(id).unwrap();
    assert_eq!(env.ledger.balance(TOKEN_A, PARTY_B), 1_000);
    assert_eq!(env.ledger.balance(TOKEN_B, PARTY_A) + env.ledger.balance(TOKEN_B, TREASURY), 500);
    assert_eq!(env.accept_partial(id, 1), Err(SwapError::AlreadyCompleted));
}

#[test]
fn test_cancel_after_expiry_without_party_a_auth() {
    let mut env = setup();
    let expires_at = env.seq + 5;
    let id = env.propose(1000, 500, expires_at).unwrap();
    env.seq = expires_at + 1;
    env.cancel(id).unwrap();
    assert_eq!(env.swap.get_swap(id).unwrap().state, SwapState::Cancelled);
}

// ── further cases ────────────────────────────────────────────────────────────

#[test]
fn propose_escrows_and_cancel_refunds() {
    let mut env = setup();
    let id = env.propose(1_000, 500, env.seq + 10).unwrap();
    assert_eq!(env.ledger.balance(TOKEN_A, SWAP), 1_000);
    assert_eq!(env.ledger.balance(TOKEN_A, PARTY_A), 99_000);
    env.cancel(id).unwrap();
    assert_eq!(env.ledger.balance(TOKEN_A, SWAP), 0);
    assert_eq!(env.ledger.balance(TOKEN_A, PARTY_A), 100_000);
    assert_eq!(env.cancel(id), Err(SwapError::AlreadyCancelled));
    assert_eq!(env.accept(id), Err(SwapError::AlreadyCancelled));
}

#[test]
fn accept_pays_party_a_minus_fee() {
    let mut env = setup();
    let id = env.propose(1_000, 10_000, env.seq + 10).unwrap();
    env.accept(id).unwrap();
    assert_eq!(env.ledger.balance(TOKEN_B, TREASURY), 50);
    assert_eq!(env.ledger.balance(TOKEN_B, PARTY_A), 9_950);
    assert_eq!(env.ledger.balance(TOKEN_B, SWAP), 0);
    assert_eq!(env.accept(id), Err(SwapError::AlreadyCompleted));
    assert_eq!(env.cancel(id), Err(SwapError::AlreadyCompleted));
}

#[test]
fn zero_fee_sends_no_treasury_transfer() {
    let mut env = setup();
    env.swap.set_fee_bps(0).unwrap();
    let id = env.propose(10, 10, env.seq + 10).unwrap();
    let (_, ts) = env.swap.accept_swap(id, PARTY_B, env.seq).unwrap();
    assert_eq!(ts.len(), 3);
    assert!(ts.iter().all(|t| t.to != TREASURY));
}

#[test]
fn accept_after_deadline_rejected() {
    let mut env = setup();
    let id = env.propose(10, 10, env.seq + 10).unwrap();
    env.seq += 11;
    assert_eq!(env.accept(id), Err(SwapError::DeadlineExpired));
}

#[test]
fn propose_validation() {
    let mut env = setup();
    assert_eq!(env.propose(0, 10, env.seq + 10), Err(SwapError::InvalidAmount));
    assert_eq!(env.propose(10, -1, env.seq + 10), Err(SwapError::InvalidAmount));
    assert_eq!(env.propose(10, 10, env.seq), Err(SwapError::InvalidDeadline));
    assert_eq!(env.swap.get_swap(0), Err(SwapError::SwapNotFound));
    assert_eq!(env.swap.swap_count(), Ok(0));
}

#[test]
fn uninitialized_and_config() {
    let mut s = SwapContract::new(SWAP);
    assert_eq!(s.propose_swap(PARTY_A, TOKEN_A, 1, TOKEN_B, 1, 10, 0).map(|_| ()), Err(SwapError::NotInitialized));
    assert_eq!(s.get_admin(), Err(SwapError::NotInitialized));
    assert_eq!(s.swap_count(), Err(SwapError::NotInitialized));
    assert_eq!(s.initialize(PARTY_A, TREASURY, 10_001), Err(SwapError::InvalidFee));
    s.initialize(PARTY_A, TREASURY, 30).unwrap();
    assert_eq!(s.initialize(PARTY_A, TREASURY, 30), Err(SwapError::AlreadyInitialized));
    assert_eq!(s.get_fee_bps(), Ok(30));
    assert_eq!(s.set_fee_bps(10_001), Err(SwapError::InvalidFee));
    s.set_treasury(9).unwrap();
    assert_eq!(s.get_treasury(), Ok(9));
    s.set_admin(8).unwrap();
    assert_eq!(s.get_admin(), Ok(8));
}

#[test]
fn swap_state_names() {
    assert_eq!(SwapState::Pending.as_str(), "pending");
    assert_eq!(SwapState::Executed.as_str(), "executed");
    assert_eq!(SwapState::Cancelled.as_str(), "cancelled");
}

#[test]
fn prop_swap_state_machine_preserves_balances() {
    let mut env = Env { swap: SwapContract::new(SWAP), ledger: Ledger::new(), seq: 100 };
    env.ledger.mint(TOKEN_A, PARTY_A, 1_000_000);
    env.ledger.mint(TOKEN_B, PARTY_B, 1_000_000);
    env.swap.initialize(PARTY_A, TREASURY, 250).unwrap();
    let total = |env: &Env, token: u64| -> i128 {
        [PARTY_A, PARTY_B, TREASURY, SWAP].iter().map(|w| env.ledger.balance(token, *w)).sum()
    };
    let steps: Vec<(u8, i128, i128, u32)> = vec![
        (0, 1_000, 500, 0),
        (1, 0, 0, 0),
        (0, 77, 13, 1),
        (2, 0, 0, 1),
        (0, 5_000, 4_321, 2),
        (1, 0, 0, 2),
        (1, 0, 0, 2),
        (2, 0, 0, 0),
        (0, 1, 1, 3),
        (1, 0, 0, 3),
    ];
    for (op, a, b, id) in steps {
        let _ = match op {
            0 => env.propose(a, b, env.seq + 50).map(|_| ()),
            1 => env.accept(id),
            _ => env.cancel(id),
        };
        assert_eq!(total(&env, TOKEN_A), 1_000_000);
        assert_eq!(total(&env, TOKEN_B), 1_000_000);
        assert_eq!(env.ledger.balance(TOKEN_A, TREASURY), 0);
    }
    // fees: 500 * 250 / 10 000 = 12, 4 321 * 250 / 10 000 = 108, 1 * 250 / 10 000 = 0
    assert_eq!(env.ledger.balance(TOKEN_B, TREASURY), 12 + 108);
}

#[test]
fn whole_swap_of_large_amounts_is_accepted() {
    let big: i128 = 1 << 64;
    let mut env = setup();
    env.ledger.mint(TOKEN_A, PARTY_A, big);
    env.ledger.mint(TOKEN_B, PARTY_B, big);
    env.swap.set_fee_bps(0).unwrap();
    let id = env.propose(big, big, env.seq + 10).unwrap();
    env.accept(id).unwrap();
    assert_eq!(env.ledger.balance(TOKEN_A, PARTY_B), big);
    assert_eq!(env.ledger.balance(TOKEN_B, PARTY_A), big);
    assert_eq!(env.swap.get_swap(id).unwrap().filled_amount, big);
    // taken in parts, the fill price needs amount_a * amount_b to fit in i128
    assert_eq!(env.propose_with_options(big, big, env.seq + 10, true, true), Err(SwapError::InvalidAmount));
}
