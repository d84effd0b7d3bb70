use std::collections::HashMap;

use soroban_templates::auction::{AuctionContract, AuctionError};
use soroban_templates::common::Transfer;

const AUCTION: u64 = 500;
const SELLER: u64 = 1;
const TOKEN: u64 = 2;

struct Ledger {
    balances: HashMap<(u64, u64), i128>,
}

impl Ledger {
    fn new() -> Self {
        Ledger { balances: HashMap::new() }
    }
    fn mint(&mut self, to: u64, amount: i128) {
        *self.balances.entry((TOKEN, to)).or_insert(0) += amount;
    }
    fn balance(&self, who: u64) -> i128 {
        *self.balances.get(&(TOKEN, who)).unwrap_or(&0)
    }
    fn apply(&mut self, transfers: &[Transfer]) {
        for t in transfers {
            assert!(t.amount >= 0);
            assert!(*self.balances.get(&(t.token, t.from)).unwrap_or(&0) >= t.amount, "insufficient balance");
            *self.balances.entry((t.token, t.from)).or_insert(0) -= t.amount;
            *self.balances.entry((t.token, t.to)).or_insert(0) += t.amount;
        }
    }
}

struct Env {
    auction: AuctionContract,
    ledger: Ledger,
}

impl Env {
    fn bid(&mut self, bidder: u64, amount: i128, seq: u32) -> Result<(), AuctionError> {
        let ts = self.auction.bid(bidder, amount, seq)?;
        self.ledger.apply(&ts);
        Ok(())
    }
    fn end(&mut self, seq: u32) -> Result<(), AuctionError> {
        let ts = self.auction.end(seq)?;
        self.ledger.apply(&ts);
        Ok(())
    }
    fn withdraw(&mut self, bidder: u64) -> Result<(), AuctionError> {
        let ts = self.auction.withdraw(bidder)?;
        self.ledger.apply(&ts);
        Ok(())
    }
    fn cancel(&mut self, seller: u64, seq: u32) -> Result<(), AuctionError> {
        let ts = self.auction.cancel(seller, seq)?;
        self.ledger.apply(&ts);
        Ok(())
    }
}

/// Auction started at ledger 100, deadline 1100.
fn setup(start_price: i128, min_increment: i128, reserve: Option<i128>, window: u32, grace: u32, fee: i128) -> Env {
    let mut auction = AuctionContract::new(AUCTION);
    auction.start(SELLER, TOKEN, start_price, min_increment, 1_100, reserve, window, grace, fee, 100).unwrap();
    Env { auction, ledger: Ledger::new() }
}

#[test]
fn test_start_validation() {
    let mut a = AuctionContract::new(AUCTION);
    assert_eq!(a.start(SELLER, TOKEN, 0, 10, 200, None, 0, 0, 0, 100), Err(AuctionError::InvalidAmount));
    assert_eq!(a.start(SELLER, TOKEN, 10, 0, 200, None, 0, 0, 0, 100), Err(AuctionError::InvalidAmount));
    assert_eq!(a.start(SELLER, TOKEN, 10, 1, 200, None, 0, 0, -1, 100), Err(AuctionError::InvalidAmount));
    assert_eq!(a.start(SELLER, TOKEN, 10, 1, 100, None, 0, 0, 0, 100), Err(AuctionError::InvalidDeadline));
    assert_eq!(a.get_info(), Err(AuctionError::NotInitialized));
    assert_eq!(a.start(SELLER, TOKEN, 10, 1, 200, None, 0, 0, 0, 100), Ok(()));
    assert_eq!(a.start(SELLER, TOKEN, 10, 1, 200, None, 0, 0, 0, 100), Err(AuctionError::AlreadyInitialized));
    let info = a.get_info().unwrap();
    assert_eq!(info.highest_bid, 9);
    assert_eq!(info.highest_bidder, None);
    assert_eq!(info.start_ledger, 100);
}

#[test]
fn test_bid_rules_and_refunds() {
    let mut env = setup(50, 10, None, 0, 0, 0);
    env.ledger.mint(10, 1_000);
    env.ledger.mint(11, 1_000);
    assert_eq!(env.bid(10, 49, 200), Err(AuctionError::BidTooLow));
    assert_eq!(env.bid(10, 0, 200), Err(AuctionError::InvalidAmount));
    env.bid(10, 50, 200).unwrap();
    assert_eq!(env.bid(11, 59, 200), Err(AuctionError::BidTooLow));
    env.bid(11, 60, 200).unwrap();
    assert_eq!(env.auction.get_pending(10), 50);
    assert_eq!(env.auction.get_info().unwrap().highest_bid, 60);
    assert_eq!(env.auction.get_info().unwrap().highest_bidder, Some(11));
    assert_eq!(env.ledger.balance(AUCTION), 110);
    env.withdraw(10).unwrap();
    assert_eq!(env.ledger.balance(10), 1_000);
    assert_eq!(env.withdraw(10), Err(AuctionError::NothingToWithdraw));
    assert_eq!(env.bid(10, 100, 1_101), Err(AuctionError::AuctionEnded));
}

#[test]
fn test_end_pays_seller_and_accounting_balances() {
    let mut env = setup(50, 10, None, 0, 0, 0);
    let bids = [(10u64, 100i128), (11, 200), (12, 300), (13, 305), (14, 400)];
    let mut deposited = 0;
    for (bidder, amount) in bids {
        env.ledger.mint(bidder, amount);
        if env.bid(bidder, amount, 150).is_ok() {
            deposited += amount;
        }
    }
    // 305 is below 300 + 10 and is refused.
    assert_eq!(deposited, 1_000);
    let owed: i128 = [10u64, 11, 12, 13, 14].iter().map(|b| env.auction.get_pending(*b)).sum();
    assert_eq!(env.ledger.balance(AUCTION), owed + 400);
    assert_eq!(env.end(1_100), Err(AuctionError::AuctionNotEnded));
    env.end(1_101).unwrap();
    assert_eq!(env.end(1_102), Err(AuctionError::AlreadyEnded));
    assert_eq!(env.ledger.balance(SELLER), 400);
    for b in [10u64, 11, 12] {
        env.withdraw(b).unwrap();
    }
    assert_eq!(env.ledger.balance(AUCTION), 0);
    assert!(env.auction.get_info().unwrap().settled);
}

#[test]
fn test_reserve_not_met_returns_bid() {
    let mut env = setup(100, 10, Some(500), 0, 0, 0);
    env.ledger.mint(10, 300);
    env.bid(10, 300, 150).unwrap();
    env.end(1_101).unwrap();
    assert_eq!(env.ledger.balance(SELLER), 0);
    assert_eq!(env.ledger.balance(10), 0);
    assert_eq!(env.auction.get_pending(10), 300);
    assert!(env.auction.get_info().unwrap().settled);
    env.withdraw(10).unwrap();
    assert_eq!(env.ledger.balance(10), 300);
    assert_eq!(env.ledger.balance(AUCTION), 0);
}

#[test]
fn prop_bid_near_i128_max_returns_error_not_panic() {
    for (headroom, min_increment) in [(0i128, 1i128), (5, 10), (1_000_000, 1), (10, 2_000_000)] {
        let start_price = i128::MAX - headroom;
        let mut env = setup(start_price, min_increment, None, 0, 0, 0);
        env.ledger.mint(1, start_price);
        env.bid(1, start_price, 150).unwrap();
        match start_price.checked_add(min_increment) {
            None => assert_eq!(env.auction.bid(2, i128::MAX, 150).map(|_| ()), Err(AuctionError::Overflow)),
            Some(required) => {
                assert_eq!(env.auction.bid(2, required - 1, 150).map(|_| ()), Err(AuctionError::BidTooLow))
            }
        }
        assert_eq!(env.auction.get_info().unwrap().highest_bid, start_price);
    }
}

#[test]
fn prop_pending_refund_near_i128_max() {
    for existing in [i128::MAX - 2_000, i128::MAX - 1_000, i128::MAX - 999, i128::MAX] {
        let mut env = setup(1_000, 100, None, 0, 0, 0);
        env.ledger.mint(1, 1_000);
        env.ledger.mint(2, 1_100);
        env.bid(1, 1_000, 150).unwrap();
        env.auction.pending.insert(1, existing);
        let result = env.auction.bid(2, 1_100, 150).map(|_| ());
        if existing.checked_add(1_000).is_none() {
            assert_eq!(result, Err(AuctionError::Overflow));
            assert_eq!(env.auction.get_pending(1), existing);
        } else {
            assert!(result.is_ok());
            assert_eq!(env.auction.get_pending(1), existing + 1_000);
        }
    }
}

#[test]
fn bid_after_cancellation_is_refused() {
    let mut env = setup(100, 10, None, 0, 0, 0);
    env.auction.cancel(SELLER, 120).unwrap();
    assert_eq!(env.auction.bid(3, 500, 130).map(|_| ()), Err(AuctionError::AuctionEnded));
    assert_eq!(env.auction.end(2_000).map(|_| ()), Err(AuctionError::AlreadyEnded));
}

#[test]
fn test_reserve_met_pays_seller() {
    let mut env = setup(100, 10, Some(500), 0, 0, 0);
    env.ledger.mint(10, 600);
    env.bid(10, 600, 150).unwrap();
    env.end(1_101).unwrap();
    assert_eq!(env.ledger.balance(SELLER), 600);
}

#[test]
fn test_end_without_bids() {
    let mut env = setup(100, 10, None, 0, 0, 0);
    env.end(1_101).unwrap();
    assert!(env.auction.get_info().unwrap().settled);
    assert_eq!(env.ledger.balance(SELLER), 0);
}

#[test]
fn test_anti_sniping_extends_deadline() {
    let mut env = setup(100, 10, None, 50, 0, 0);
    env.ledger.mint(10, 1_000);
    env.bid(10, 100, 1_000).unwrap();
    assert_eq!(env.auction.get_info().unwrap().deadline, 1_100);
    env.bid(10, 110, 1_060).unwrap();
    assert_eq!(env.auction.get_info().unwrap().deadline, 1_150);
}

#[test]
fn test_cancel_before_bids() {
    let mut env = setup(100, 10, None, 0, 0, 0);
    assert_eq!(env.cancel(99, 150), Err(AuctionError::NotAuthorized));
    env.cancel(SELLER, 150).unwrap();
    assert!(env.auction.is_cancelled());
    assert_eq!(env.bid(10, 100, 150), Err(AuctionError::AuctionEnded));
    assert_eq!(env.end(1_101), Err(AuctionError::AlreadyEnded));
    assert_eq!(env.cancel(SELLER, 150), Err(AuctionError::AlreadyEnded));
}

#[test]
fn test_cancel_after_bid_requires_grace_window() {
    let mut env = setup(100, 10, None, 0, 0, 0);
    env.ledger.mint(10, 100);
    env.bid(10, 100, 150).unwrap();
    assert_eq!(env.cancel(SELLER, 150), Err(AuctionError::BidAlreadyPlaced));
}

#[test]
fn test_cancel_in_grace_window_compensates_top_bidder() {
    let mut env = setup(100, 10, None, 0, 20, 15);
    env.ledger.mint(10, 100);
    env.ledger.mint(SELLER, 15);
    env.bid(10, 100, 110).unwrap();
    assert_eq!(env.cancel(SELLER, 121), Err(AuctionError::BidAlreadyPlaced));
    env.cancel(SELLER, 120).unwrap();
    assert_eq!(env.auction.get_pending(10), 115);
    assert_eq!(env.auction.get_info().unwrap().highest_bidder, None);
    env.withdraw(10).unwrap();
    assert_eq!(env.ledger.balance(10), 115);
    assert_eq!(env.ledger.balance(AUCTION), 0);
}

#[test]
fn test_uninitialized_auction() {
    let mut a = AuctionContract::new(AUCTION);
    assert_eq!(a.bid(10, 5, 0).err(), Some(AuctionError::NotInitialized));
    assert_eq!(a.end(0).err(), Some(AuctionError::NotInitialized));
    assert_eq!(a.cancel(SELLER, 0).err(), Some(AuctionError::NotInitialized));
    assert_eq!(a.withdraw(10).err(), Some(AuctionError::NothingToWithdraw));
    assert!(!a.is_cancelled());
    assert_eq!(a.get_pending(10), 0);
}
