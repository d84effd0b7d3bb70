//! English auction: a seller lists an item; bidders submit increasing bids
//! until the deadline (extended when a bid arrives close to it), outbid
//! bidders reclaim their funds, and anyone settles the auction once the
//! deadline passes. An optional reserve price keeps the item unsold when the
//! top bid is too low, and the seller may cancel before any bid, or inside a
//! grace window after one by compensating the top bidder.
use vstd::prelude::*;
use std::collections::HashMap;
use crate::common::{Address, Transfer, net_inflow, lemma_net_inflow_single, map_sum, lemma_map_sum_insert, lemma_map_sum_remove_key};

verus! {

broadcast use vstd::std_specs::hash::group_hash_axioms;

/// Errors returned by [`AuctionContract`].
#[derive(Clone, Copy, Debug, PartialEq, Eq, Structural)]
pub enum AuctionError {
    NotInitialized,
    AlreadyInitialized,
    InvalidAmount,
    InvalidDeadline,
    AuctionEnded,
    BidTooLow,
    NotAuthorized,
    AlreadyEnded,
    BidAlreadyPlaced,
    AuctionNotEnded,
    NothingToWithdraw,
    /// A bid threshold or a queued refund would not fit in `i128`.
    Overflow,
}

/// Auction details, set by `start` and updated by bids and settlement.
#[derive(Clone, Copy, Debug, PartialEq, Eq, Structural)]
pub struct AuctionInfo {
    pub seller: Address,
    pub token: Address,
    pub start_price: i128,
    pub min_increment: i128,
    pub deadline: u32,
    pub highest_bid: i128,
    pub highest_bidder: Option<Address>,
    pub settled: bool,
    /// Optional reserve price set at start.
    pub reserve_price: Option<i128>,
    /// Anti-sniping extension window in ledgers (0 = disabled).
    pub extension_window: u32,
    /// Ledger sequence at which the auction was started.
    pub start_ledger: u32,
    /// Seller cancellation grace window in ledgers (0 = disabled).
    pub cancellation_grace_ledgers: u32,
    /// Compensation paid to the top bidder on a grace-window cancellation.
    pub cancellation_fee: i128,
}

/// English auction contract state.
pub struct AuctionContract {
    /// The contract's own account (holds the escrowed bids).
    pub address: Address,
    /// `None` until `start` has been called.
    pub info: Option<AuctionInfo>,
    /// True once the seller has cancelled the auction.
    pub cancelled: bool,
    /// Refunds owed to outbid or compensated bidders.
    pub pending: HashMap<u64, i128>,
}

/// `a + b` capped at `u32::MAX`.
pub open spec fn sat_add(a: u32, b: u32) -> u32 {
    if a + b > u32::MAX { u32::MAX } else { (a + b) as u32 }
}

/// `a - b` floored at zero.
pub open spec fn sat_sub(a: u32, b: u32) -> u32 {
    if a < b { 0 } else { (a - b) as u32 }
}

impl AuctionContract {
    pub open spec fn started(&self) -> bool {
        self.info is Some
    }

    pub open spec fn inf(&self) -> AuctionInfo {
        self.info->0
    }

    /// Refund owed to `bidder` (0 when none is recorded).
    pub open spec fn pending_of(&self, bidder: Address) -> i128 {
        if self.pending@.contains_key(bidder) { self.pending@[bidder] } else { 0 }
    }

    /// The escrowed top bid that the contract still owes to its bidder or the seller.
    pub open spec fn live_bid(&self) -> int {
        match self.info {
            Some(i) => if i.highest_bidder is Some && !i.settled { i.highest_bid as int } else { 0 },
            None => 0,
        }
    }

    /// Everything the contract owes: all pending refunds plus the live top bid.
    pub open spec fn obligations(&self) -> int {
        map_sum(self.pending@) + self.live_bid()
    }

    /// Well-formedness: refunds are non-negative and a live top bid is at least the start price.
    pub open spec fn wf(&self) -> bool {
        &&& forall|a: u64| #[trigger] self.pending@.contains_key(a) ==> self.pending@[a] >= 0
        &&& self.info matches Some(i) ==> {
            &&& i.start_price > 0
            &&& i.min_increment > 0
            &&& i.cancellation_fee >= 0
            &&& i.highest_bid >= i.start_price - 1
            &&& i.highest_bidder is Some ==> i.highest_bid >= i.start_price
        }
    }

    /// A fresh auction contract whose own account is `address`.
    pub fn new(address: Address) -> (r: Self)
        ensures
            r.address == address,
            r.info is None,
            !r.cancelled,
            r.pending@ == Map::<u64, i128>::empty(),
            r.wf(),
    {
        AuctionContract { address, info: None, cancelled: false, pending: HashMap::new() }
    }

    /// The error `start` returns, if any.
    pub open spec fn start_error(&self, start_price: i128, min_increment: i128, deadline: u32, cancellation_fee: i128, ledger: u32) -> Option<AuctionError> {
        if self.started() {
            Some(AuctionError::AlreadyInitialized)
        } else if start_price <= 0 || min_increment <= 0 || cancellation_fee < 0 {
            Some(AuctionError::InvalidAmount)
        } else if deadline <= ledger {
            Some(AuctionError::InvalidDeadline)
        } else {
            None
        }
    }

    /// Start the auction at ledger `ledger`.
    ///
    /// The first bid must reach `start_price`; later bids must beat the top bid
    /// by `min_increment`. `reserve_price` keeps the item unsold below it.
    /// `extension_window` (0 = off) extends the deadline for late bids.
    /// `cancellation_grace_ledgers` (0 = off) and `cancellation_fee` govern
    /// cancellation after a bid.
    pub fn start(
        &mut self,
        seller: Address,
        token: Address,
        start_price: i128,
        min_increment: i128,
        deadline: u32,
        reserve_price: Option<i128>,
        extension_window: u32,
        cancellation_grace_ledgers: u32,
        cancellation_fee: i128,
        ledger: u32,
    ) -> (r: Result<(), AuctionError>)
        requires
            old(self).wf(),
        ensures
            final(self).wf(),
            r is Err <==> old(self).start_error(start_price, min_increment, deadline, cancellation_fee, ledger) is Some,
            r matches Err(e) ==> Some(e) == old(self).start_error(start_price, min_increment, deadline, cancellation_fee, ledger)
                && *final(self) == *old(self),
            r is Ok ==> {
                &&& final(self).info == Some(AuctionInfo {
                    seller,
                    token,
                    start_price,
                    min_increment,
                    deadline,
                    highest_bid: (start_price - 1) as i128,
                    highest_bidder: None,
                    settled: false,
                    reserve_price,
                    extension_window,
                    start_ledger: ledger,
                    cancellation_grace_ledgers,
                    cancellation_fee,
                })
                &&& !final(self).cancelled
                &&& final(self).address == old(self).address
                &&& final(self).pending@ == old(self).pending@
            },
    {
        if self.info.is_some() {
            return Err(AuctionError::AlreadyInitialized);
        }
        if start_price <= 0 || min_increment <= 0 || cancellation_fee < 0 {
            return Err(AuctionError::InvalidAmount);
        }
        if deadline <= ledger {
            return Err(AuctionError::InvalidDeadline);
        }
        self.info = Some(AuctionInfo {
            seller,
            token,
            start_price,
            min_increment,
            deadline,
            highest_bid: start_price - 1,
            highest_bidder: None,
            settled: false,
            reserve_price,
            extension_window,
            start_ledger: ledger,
            cancellation_grace_ledgers,
            cancellation_fee,
        });
        self.cancelled = false;
        Ok(())
    }

    /// The smallest acceptable next bid.
    pub open spec fn min_required(i: AuctionInfo) -> int {
        if i.highest_bid < i.start_price { i.start_price as int } else { i.highest_bid + i.min_increment }
    }

    /// The error `bid` returns, if any.
    pub open spec fn bid_error(&self, amount: i128, ledger: u32) -> Option<AuctionError> {
        if amount <= 0 {
            Some(AuctionError::InvalidAmount)
        } else if self.cancelled {
            Some(AuctionError::AuctionEnded)
        } else if !self.started() {
            Some(AuctionError::NotInitialized)
        } else if ledger > self.inf().deadline {
            Some(AuctionError::AuctionEnded)
        } else if self.inf().highest_bid >= self.inf().start_price
            && self.inf().highest_bid + self.inf().min_increment > i128::MAX {
            Some(AuctionError::Overflow)
        } else if amount < Self::min_required(self.inf()) {
            Some(AuctionError::BidTooLow)
        } else if self.inf().highest_bidder matches Some(prev)
            && self.pending_of(prev) + self.inf().highest_bid > i128::MAX {
            Some(AuctionError::Overflow)
        } else {
            None
        }
    }

    /// The deadline after a bid at `ledger`: pushed back by the extension
    /// window when the bid lands within that window of the deadline.
    pub open spec fn extended_deadline(i: AuctionInfo, ledger: u32) -> u32 {
        if i.extension_window > 0 && sat_sub(i.deadline, ledger) <= i.extension_window {
            sat_add(i.deadline, i.extension_window)
        } else {
            i.deadline
        }
    }

    /// Place a bid of `amount` at ledger `ledger`. The bid is escrowed in the
    /// contract and the previous top bid becomes a pending refund for its bidder.
    pub fn bid(&mut self, bidder: Address, amount: i128, ledger: u32) -> (r: Result<Vec<Transfer>, AuctionError>)
        requires
            old(self).wf(),
        ensures
            final(self).wf(),
            r is Err <==> old(self).bid_error(amount, ledger) is Some,
            r matches Err(e) ==> Some(e) == old(self).bid_error(amount, ledger) && *final(self) == *old(self),
            r matches Ok(ts) ==> {
                let i = old(self).inf();
                &&& ts@ == seq![Transfer::spec_new(i.token, bidder, old(self).address, amount)]
                &&& final(self).info == Some(AuctionInfo {
                    highest_bid: amount,
                    highest_bidder: Some(bidder),
                    deadline: Self::extended_deadline(i, ledger),
                    ..i
                })
                &&& final(self).pending@ == (match i.highest_bidder {
                    Some(prev) => old(self).pending@.insert(prev, (old(self).pending_of(prev) + i.highest_bid) as i128),
                    None => old(self).pending@,
                })
                &&& final(self).cancelled == old(self).cancelled
                &&& final(self).address == old(self).address
                &&& amount > i.highest_bid
                &&& bidder != old(self).address && !i.settled ==> net_inflow(ts@, i.token, old(self).address)
                    == final(self).obligations() - old(self).obligations()
            },
    {
        if amount <= 0 {
            return Err(AuctionError::InvalidAmount);
        }
        if self.cancelled {
            return Err(AuctionError::AuctionEnded);
        }
        let i = match self.info {
            Some(i) => i,
            None => return Err(AuctionError::NotInitialized),
        };
        if ledger > i.deadline {
            return Err(AuctionError::AuctionEnded);
        }
        let min_required = if i.highest_bid < i.start_price {
            i.start_price
        } else {
            match i.highest_bid.checked_add(i.min_increment) {
                Some(m) => m,
                None => return Err(AuctionError::Overflow),
            }
        };
        if amount < min_required {
            return Err(AuctionError::BidTooLow);
        }
        let refund: Option<(Address, i128)> = match i.highest_bidder {
            Some(prev) => {
                let current: i128 = match self.pending.get(&prev) {
                    Some(v) => *v,
                    None => 0,
                };
                match current.checked_add(i.highest_bid) {
                    Some(t) => Some((prev, t)),
                    None => return Err(AuctionError::Overflow),
                }
            },
            None => None,
        };
        let mut transfers: Vec<Transfer> = Vec::new();
        transfers.push(Transfer { token: i.token, from: bidder, to: self.address, amount });
        let ghost old_pending = self.pending@;
        if let Some((prev, total)) = refund {
            self.pending.insert(prev, total);
            proof {
                lemma_map_sum_insert(old_pending, prev, total);
            }
        }
        let mut deadline = i.deadline;
        if i.extension_window > 0 {
            if deadline.saturating_sub(ledger) <= i.extension_window {
                deadline = deadline.saturating_add(i.extension_window);
            }
        }
        self.info = Some(AuctionInfo { highest_bid: amount, highest_bidder: Some(bidder), deadline, ..i });
        proof {
            lemma_net_inflow_single(transfers@[0], i.token, self.address);
        }
        Ok(transfers)
    }

    /// The error `cancel` returns, if any.
    pub open spec fn cancel_error(&self, seller: Address, ledger: u32) -> Option<AuctionError> {
        if !self.started() {
            Some(AuctionError::NotInitialized)
        } else if seller != self.inf().seller {
            Some(AuctionError::NotAuthorized)
        } else if self.inf().settled || self.cancelled {
            Some(AuctionError::AlreadyEnded)
        } else if self.inf().highest_bidder is None {
            None
        } else if self.inf().cancellation_grace_ledgers == 0
            || ledger > sat_add(self.inf().start_ledger, self.inf().cancellation_grace_ledgers) {
            Some(AuctionError::BidAlreadyPlaced)
        } else {
            let credit = self.inf().highest_bid + self.inf().cancellation_fee;
            let total = self.pending_of(self.inf().highest_bidder->0) + credit;
            if credit > i128::MAX || total > i128::MAX {
                Some(AuctionError::InvalidAmount)
            } else {
                None
            }
        }
    }

    /// Cancel the auction (seller only).
    ///
    /// Before any bid nothing moves. After a bid, cancellation is allowed only
    /// inside the grace window: the seller pays the fee into the contract and
    /// the top bidder's pending refund is credited with their bid plus the fee.
    pub fn cancel(&mut self, seller: Address, ledger: u32) -> (r: Result<Vec<Transfer>, AuctionError>)
        requires
            old(self).wf(),
        ensures
            final(self).wf(),
            r is Err <==> old(self).cancel_error(seller, ledger) is Some,
            r matches Err(e) ==> Some(e) == old(self).cancel_error(seller, ledger) && *final(self) == *old(self),
            r matches Ok(ts) ==> {
                let i = old(self).inf();
                &&& final(self).cancelled
                &&& final(self).address == old(self).address
                &&& match i.highest_bidder {
                    None => {
                        &&& ts@.len() == 0
                        &&& final(self).info == old(self).info
                        &&& final(self).pending@ == old(self).pending@
                    },
                    Some(top) => {
                        &&& ts@ == (if i.cancellation_fee > 0 {
                            seq![Transfer::spec_new(i.token, seller, old(self).address, i.cancellation_fee)]
                        } else {
                            Seq::<Transfer>::empty()
                        })
                        &&& final(self).info == Some(AuctionInfo { highest_bidder: None, ..i })
                        &&& final(self).pending@ == old(self).pending@.insert(
                            top,
                            (old(self).pending_of(top) + i.highest_bid + i.cancellation_fee) as i128,
                        )
                    },
                }
                &&& seller != old(self).address ==> net_inflow(ts@, i.token, old(self).address)
                    == final(self).obligations() - old(self).obligations()
            },
    {
        let i = match self.info {
            Some(i) => i,
            None => return Err(AuctionError::NotInitialized),
        };
        if seller != i.seller {
            return Err(AuctionError::NotAuthorized);
        }
        if i.settled || self.cancelled {
            return Err(AuctionError::AlreadyEnded);
        }
        let top = match i.highest_bidder {
            Some(top) => top,
            None => {
                self.cancelled = true;
                return Ok(Vec::new());
            },
        };
        if i.cancellation_grace_ledgers == 0 || ledger > i.start_ledger.saturating_add(i.cancellation_grace_ledgers) {
            return Err(AuctionError::BidAlreadyPlaced);
        }
        let current: i128 = match self.pending.get(&top) {
            Some(v) => *v,
            None => 0,
        };
        let new_pending = match i.highest_bid.checked_add(i.cancellation_fee) {
            Some(credit) => match current.checked_add(credit) {
                Some(total) => total,
                None => return Err(AuctionError::InvalidAmount),
            },
            None => return Err(AuctionError::InvalidAmount),
        };
        let mut transfers: Vec<Transfer> = Vec::new();
        if i.cancellation_fee > 0 {
            transfers.push(Transfer { token: i.token, from: seller, to: self.address, amount: i.cancellation_fee });
        }
        let ghost old_pending = self.pending@;
        self.pending.insert(top, new_pending);
        self.info = Some(AuctionInfo { highest_bidder: None, ..i });
        self.cancelled = true;
        proof {
            lemma_map_sum_insert(old_pending, top, new_pending);
            if i.cancellation_fee > 0 {
                lemma_net_inflow_single(transfers@[0], i.token, self.address);
            }
        }
        Ok(transfers)
    }

    /// The error `end` returns, if any.
    pub open spec fn end_error(&self, ledger: u32) -> Option<AuctionError> {
        if !self.started() {
            Some(AuctionError::NotInitialized)
        } else if self.cancelled {
            Some(AuctionError::AlreadyEnded)
        } else if ledger <= self.inf().deadline {
            Some(AuctionError::AuctionNotEnded)
        } else if self.inf().settled {
            Some(AuctionError::AlreadyEnded)
        } else if self.reserve_not_met()
            && self.pending_of(self.inf().highest_bidder->0) + self.inf().highest_bid > i128::MAX {
            Some(AuctionError::Overflow)
        } else {
            None
        }
    }

    /// The top bid is valid but below the reserve, so the item stays unsold.
    pub open spec fn reserve_not_met(&self) -> bool {
        let i = self.inf();
        &&& i.highest_bid >= i.start_price
        &&& i.highest_bidder is Some
        &&& i.reserve_price matches Some(rp) && i.highest_bid < rp
    }

    /// The payout `end` makes: nothing without a valid bid or when the reserve
    /// is not met (the top bid is then queued as the bidder's pending refund),
    /// else the top bid to the seller.
    pub open spec fn settlement(&self) -> Seq<Transfer> {
        let i = self.inf();
        if i.highest_bid < i.start_price || i.highest_bidder is None || self.reserve_not_met() {
            Seq::empty()
        } else {
            seq![Transfer::spec_new(i.token, self.address, i.seller, i.highest_bid)]
        }
    }

    /// Settle the auction after its deadline (anyone may call).
    pub fn end(&mut self, ledger: u32) -> (r: Result<Vec<Transfer>, AuctionError>)
        requires
            old(self).wf(),
        ensures
            final(self).wf(),
            r is Err <==> old(self).end_error(ledger) is Some,
            r matches Err(e) ==> Some(e) == old(self).end_error(ledger) && *final(self) == *old(self),
            r matches Ok(ts) ==> {
                let i = old(self).inf();
                &&& ts@ == old(self).settlement()
                &&& final(self).info == Some(AuctionInfo { settled: true, ..i })
                &&& final(self).pending@ == (if old(self).reserve_not_met() {
                    let w = i.highest_bidder->0;
                    old(self).pending@.insert(w, (old(self).pending_of(w) + i.highest_bid) as i128)
                } else {
                    old(self).pending@
                })
                &&& final(self).cancelled == old(self).cancelled
                &&& final(self).address == old(self).address
                &&& i.seller != old(self).address
                    ==> net_inflow(ts@, i.token, old(self).address) == final(self).obligations() - old(self).obligations()
            },
    {
        let i = match self.info {
            Some(i) => i,
            None => return Err(AuctionError::NotInitialized),
        };
        if self.cancelled {
            return Err(AuctionError::AlreadyEnded);
        }
        if ledger <= i.deadline {
            return Err(AuctionError::AuctionNotEnded);
        }
        if i.settled {
            return Err(AuctionError::AlreadyEnded);
        }
        let mut transfers: Vec<Transfer> = Vec::new();
        let winner = match i.highest_bidder {
            Some(w) => w,
            None => {
                self.info = Some(AuctionInfo { settled: true, ..i });
                return Ok(transfers);
            },
        };
        if i.highest_bid < i.start_price {
            self.info = Some(AuctionInfo { settled: true, ..i });
            return Ok(transfers);
        }
        let reserve_not_met = match i.reserve_price {
            Some(rp) => i.highest_bid < rp,
            None => false,
        };
        if reserve_not_met {
            let current: i128 = match self.pending.get(&winner) {
                Some(v) => *v,
                None => 0,
            };
            let refund = match current.checked_add(i.highest_bid) {
                Some(t) => t,
                None => return Err(AuctionError::Overflow),
            };
            let ghost old_pending = self.pending@;
            self.pending.insert(winner, refund);
            self.info = Some(AuctionInfo { settled: true, ..i });
            proof {
                lemma_map_sum_insert(old_pending, winner, refund);
            }
            return Ok(transfers);
        }
        self.info = Some(AuctionInfo { settled: true, ..i });
        transfers.push(Transfer { token: i.token, from: self.address, to: i.seller, amount: i.highest_bid });
        proof {
            lemma_net_inflow_single(transfers@[0], i.token, self.address);
        }
        Ok(transfers)
    }

    /// Withdraw `bidder`'s pending refund.
    pub fn withdraw(&mut self, bidder: Address) -> (r: Result<Vec<Transfer>, AuctionError>)
        requires
            old(self).wf(),
        ensures
            final(self).wf(),
            old(self).pending_of(bidder) <= 0 ==> r == Err::<Vec<Transfer>, AuctionError>(AuctionError::NothingToWithdraw),
            old(self).pending_of(bidder) > 0 && !old(self).started() ==> r == Err::<Vec<Transfer>, AuctionError>(AuctionError::NotInitialized),
            r is Err ==> *final(self) == *old(self),
            old(self).pending_of(bidder) > 0 && old(self).started() ==> r is Ok,
            r matches Ok(ts) ==> {
                let i = old(self).inf();
                &&& ts@ == seq![Transfer::spec_new(i.token, old(self).address, bidder, old(self).pending_of(bidder))]
                &&& final(self).pending@ == old(self).pending@.remove(bidder)
                &&& final(self).info == old(self).info
                &&& final(self).cancelled == old(self).cancelled
                &&& final(self).address == old(self).address
                &&& bidder != old(self).address ==> net_inflow(ts@, i.token, old(self).address)
                    == final(self).obligations() - old(self).obligations()
            },
    {
        let amount: i128 = match self.pending.get(&bidder) {
            Some(v) => *v,
            None => 0,
        };
        if amount <= 0 {
            return Err(AuctionError::NothingToWithdraw);
        }
        let i = match self.info {
            Some(i) => i,
            None => return Err(AuctionError::NotInitialized),
        };
        let ghost old_pending = self.pending@;
        self.pending.remove(&bidder);
        let mut transfers: Vec<Transfer> = Vec::new();
        transfers.push(Transfer { token: i.token, from: self.address, to: bidder, amount });
        proof {
            lemma_map_sum_remove_key(old_pending, bidder);
            lemma_net_inflow_single(transfers@[0], i.token, self.address);
        }
        Ok(transfers)
    }

    /// Return a bidder's pending refund amount.
    pub fn get_pending(&self, bidder: Address) -> (r: i128)
        ensures
            r == self.pending_of(bidder),
    {
        match self.pending.get(&bidder) {
            Some(v) => *v,
            None => 0,
        }
    }

    /// Return the auction details.
    pub fn get_info(&self) -> (r: Result<AuctionInfo, AuctionError>)
        ensures
            r == (match self.info {
                Some(i) => Ok::<AuctionInfo, AuctionError>(i),
                None => Err(AuctionError::NotInitialized),
            }),
    {
        match self.info {
            Some(i) => Ok(i),
            None => Err(AuctionError::NotInitialized),
        }
    }

    /// Return whether the auction has been cancelled (read-only query).
    pub fn is_cancelled(&self) -> (r: bool)
        ensures
            r == self.cancelled,
    {
        self.cancelled
    }
}

/// Law: a bid placed within `extension_window` ledgers of the deadline
/// (or after it) pushes the deadline back by the window, capped at the
/// largest ledger; any other bid, or any bid when the window is 0, leaves it
/// alone. Whether the auction already had a top bid plays no part.
pub proof fn lemma_late_bid_extends_deadline(i: AuctionInfo, ledger: u32)
    ensures
        i.extension_window > 0 && i.deadline <= ledger + i.extension_window ==> AuctionContract::extended_deadline(i, ledger)
            == (if i.deadline + i.extension_window <= u32::MAX { i.deadline + i.extension_window } else { u32::MAX as int }),
        !(i.extension_window > 0 && i.deadline <= ledger + i.extension_window)
            ==> AuctionContract::extended_deadline(i, ledger) == i.deadline,
        forall|b: Option<Address>| AuctionContract::extended_deadline(AuctionInfo { highest_bidder: b, ..i }, ledger)
            == AuctionContract::extended_deadline(i, ledger),
{
}

} // verus!
