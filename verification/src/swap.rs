//! Atomic two-party token swaps: party A escrows tokens when proposing a swap;
//! party B supplies the requested tokens on acceptance, minus a protocol fee
//! that goes to the treasury; cancellation returns the escrow to party A.
use vstd::prelude::*;
use crate::common::{Address, Transfer, BPS_DENOMINATOR, bps_fee, apply_bps_fee, net_inflow, lemma_net_inflow_single, lemma_net_inflow_append,
    total_inflow, moves_within, lemma_transfers_conserve};

verus! {

/// Errors returned by [`SwapContract`].
#[derive(Clone, Copy, Debug, PartialEq, Eq, Structural)]
pub enum SwapError {
    AlreadyInitialized,
    NotInitialized,
    InvalidFee,
    InvalidAmount,
    InvalidDeadline,
    SwapNotFound,
    AlreadyCompleted,
    AlreadyCancelled,
    DeadlineExpired,
    /// The swap does not accept partial fills.
    PartialFillNotAllowed,
}

/// Lifecycle state of a swap.
#[derive(Clone, Copy, Debug, PartialEq, Eq, Structural)]
pub enum SwapState {
    Pending,
    Executed,
    Cancelled,
}

impl SwapState {
    /// Returns the lower-case name of the state ("pending", "executed" or "cancelled").
    pub fn as_str(&self) -> (r: &'static str)
        ensures
            r@ == (match self {
                SwapState::Pending => "pending"@,
                SwapState::Executed => "executed"@,
                SwapState::Cancelled => "cancelled"@,
            }),
    {
        match self {
            SwapState::Pending => "pending",
            SwapState::Executed => "executed",
            SwapState::Cancelled => "cancelled",
        }
    }
}

/// A proposed swap: party A gives `amount_a` of `token_a` for `amount_b` of `token_b`.
#[derive(Clone, Copy, Debug, PartialEq, Eq, Structural)]
pub struct SwapInfo {
    pub id: u32,
    pub party_a: Address,
    pub token_a: Address,
    pub amount_a: i128,
    pub token_b: Address,
    pub amount_b: i128,
    pub expires_at: u32,
    pub state: SwapState,
    /// Amount of `token_a` delivered to the taker.
    pub filled_amount: i128,
    pub allow_partial: bool,
    /// Party A's tokens are held by the contract.
    pub escrowed: bool,
}

/// Administrator, fee recipient and fee, set at initialization.
#[derive(Clone, Copy, Debug, PartialEq, Eq, Structural)]
pub struct SwapConfig {
    pub admin: Address,
    pub treasury: Address,
    pub fee_bps: u32,
}

/// One side of a basket swap: an amount of one token.
#[derive(Clone, Copy, Debug, PartialEq, Eq, Structural)]
pub struct BasketLeg {
    pub token: Address,
    pub amount: i128,
}

/// A basket swap: party A gives every leg of `offers` for every leg of `demands`.
#[derive(Clone, Debug)]
pub struct BasketSwapInfo {
    pub id: u32,
    pub party_a: Address,
    pub offers: Vec<BasketLeg>,
    pub demands: Vec<BasketLeg>,
    pub expires_at: u32,
    pub state: SwapState,
}

/// Swap contract state.
#[derive(Clone)]
pub struct SwapContract {
    /// The contract's own account (holds the escrows).
    pub address: Address,
    pub config: Option<SwapConfig>,
    /// Swaps, indexed by their id.
    pub swaps: Vec<SwapInfo>,
    /// Basket swaps, indexed by their id.
    pub baskets: Vec<BasketSwapInfo>,
}

/// The escrow a swap still holds in `token`: the undelivered part of its
/// party-A amount while it is pending and escrowed.
pub open spec fn held_escrow(s: SwapInfo, token: Address) -> int {
    if s.state == SwapState::Pending && s.escrowed && s.token_a == token {
        s.amount_a - s.filled_amount
    } else {
        0
    }
}

/// Total escrow in `token` owed by a list of swaps.
pub open spec fn escrow_in(swaps: Seq<SwapInfo>, token: Address) -> int
    decreases swaps.len(),
{
    if swaps.len() == 0 {
        0
    } else {
        escrow_in(swaps.drop_last(), token) + held_escrow(swaps.last(), token)
    }
}

/// Replacing one swap changes the escrow by the difference of what they hold.
pub proof fn lemma_escrow_update(swaps: Seq<SwapInfo>, i: int, q: SwapInfo, token: Address)
    requires
        0 <= i < swaps.len(),
    ensures
        escrow_in(swaps.update(i, q), token) == escrow_in(swaps, token) - held_escrow(swaps[i], token) + held_escrow(q, token),
    decreases swaps.len(),
{
    if i == swaps.len() - 1 {
        assert(swaps.update(i, q).drop_last() =~= swaps.drop_last());
    } else {
        lemma_escrow_update(swaps.drop_last(), i, q, token);
        assert(swaps.update(i, q).drop_last() =~= swaps.drop_last().update(i, q));
    }
}

/// Adding a new swap adds the escrow it holds.
proof fn lemma_escrow_push(swaps: Seq<SwapInfo>, s: SwapInfo, t: Address)
    ensures
        escrow_in(swaps.push(s), t) == escrow_in(swaps, t) + held_escrow(s, t),
{
    assert(swaps.push(s).drop_last() =~= swaps);
}

/// A recorded swap is sound: positive amounts, at most fully filled, and
/// less than fully while pending. A swap taken in parts has amounts whose
/// product fits in `i128` (its fills are priced through it); one taken
/// whole is either untouched or complete.
pub open spec fn swap_ok(s: SwapInfo) -> bool {
    &&& s.amount_a > 0
    &&& s.amount_b > 0
    &&& s.allow_partial ==> s.amount_a * s.amount_b <= i128::MAX
    &&& !s.allow_partial ==> s.filled_amount == 0 || s.filled_amount == s.amount_a
    &&& 0 <= s.filled_amount <= s.amount_a
    &&& s.state == SwapState::Pending ==> s.filled_amount < s.amount_a
}

/// Token B owed for the first `filled` units of token A delivered:
/// `amount_b * filled / amount_a`, rounded down.
pub open spec fn paid_for(s: SwapInfo, filled: int) -> int {
    (s.amount_b * filled) / (s.amount_a as int)
}

/// Token B that party B pays for taking `fill` more units of token A, so
/// that a fully filled swap has paid exactly `amount_b`.
pub open spec fn price_of_fill(s: SwapInfo, fill: int) -> int {
    paid_for(s, s.filled_amount + fill) - paid_for(s, s.filled_amount as int)
}

/// The swap after `fill` more units of token A are delivered.
pub open spec fn after_fill(s: SwapInfo, fill: int) -> SwapInfo {
    SwapInfo {
        filled_amount: (s.filled_amount + fill) as i128,
        state: if s.filled_amount + fill == s.amount_a { SwapState::Executed } else { SwapState::Pending },
        ..s
    }
}

/// The fee charged on `amount` at `fee_bps` (0 when the computation overflows).
pub open spec fn fee_on(amount: i128, fee_bps: u32) -> i128 {
    match bps_fee(amount, fee_bps) {
        Some(f) => f,
        None => 0,
    }
}

/// The movements of every leg of `legs` from `from` to `to`, in order.
pub open spec fn leg_transfers(legs: Seq<BasketLeg>, from: Address, to: Address) -> Seq<Transfer> {
    Seq::new(legs.len(), |i: int| Transfer::spec_new(legs[i].token, from, to, legs[i].amount))
}

/// The total amount of `token` over `legs`.
pub open spec fn legs_in(legs: Seq<BasketLeg>, token: Address) -> int
    decreases legs.len(),
{
    if legs.len() == 0 {
        0
    } else {
        legs_in(legs.drop_last(), token) + (if legs.last().token == token { legs.last().amount as int } else { 0 })
    }
}

/// The escrow a basket swap still holds in `token`: its offers while pending.
pub open spec fn basket_held(b: BasketSwapInfo, token: Address) -> int {
    if b.state == SwapState::Pending { legs_in(b.offers@, token) } else { 0 }
}

/// Total escrow in `token` owed by a list of basket swaps.
pub open spec fn basket_escrow(bs: Seq<BasketSwapInfo>, token: Address) -> int
    decreases bs.len(),
{
    if bs.len() == 0 {
        0
    } else {
        basket_escrow(bs.drop_last(), token) + basket_held(bs.last(), token)
    }
}

/// Replacing one basket swap changes the escrow by the difference of what they hold.
proof fn lemma_basket_escrow_update(bs: Seq<BasketSwapInfo>, i: int, q: BasketSwapInfo, token: Address)
    requires
        0 <= i < bs.len(),
    ensures
        basket_escrow(bs.update(i, q), token) == basket_escrow(bs, token) - basket_held(bs[i], token) + basket_held(q, token),
    decreases bs.len(),
{
    if i == bs.len() - 1 {
        assert(bs.update(i, q).drop_last() =~= bs.drop_last());
    } else {
        lemma_basket_escrow_update(bs.drop_last(), i, q, token);
        assert(bs.update(i, q).drop_last() =~= bs.drop_last().update(i, q));
    }
}

/// Moving every leg from `from` to `to` moves their total of `token` out of
/// `from` and into `to`.
proof fn lemma_leg_inflow(legs: Seq<BasketLeg>, from: Address, to: Address, token: Address, account: Address)
    ensures
        net_inflow(leg_transfers(legs, from, to), token, account)
            == (if to == account { legs_in(legs, token) } else { 0 }) - (if from == account { legs_in(legs, token) } else { 0 }),
    decreases legs.len(),
{
    if legs.len() > 0 {
        assert(leg_transfers(legs, from, to).drop_last() =~= leg_transfers(legs.drop_last(), from, to));
        lemma_leg_inflow(legs.drop_last(), from, to, token, account);
    }
}

impl BasketSwapInfo {
    /// A fresh pending basket swap with these fields.
    pub open spec fn holds(&self, id: u32, party_a: Address, offers: Seq<BasketLeg>, demands: Seq<BasketLeg>,
        expires_at: u32) -> bool
    {
        &&& self.id == id && self.party_a == party_a && self.expires_at == expires_at
        &&& self.state == SwapState::Pending
        &&& self.offers@ == offers && self.demands@ == demands
    }
}

impl SwapContract {
    pub open spec fn initialized(&self) -> bool {
        self.config is Some
    }

    pub open spec fn cfg(&self) -> SwapConfig {
        self.config->0
    }

    /// Well-formedness: swaps are stored at their id, with positive amounts
    /// whose product fits in `i128`, at most fully filled (less while pending),
    /// and the fee is a valid rate.
    pub open spec fn wf(&self) -> bool {
        &&& self.swaps@.len() <= u32::MAX
        &&& forall|i: int| 0 <= i < self.swaps@.len() ==> #[trigger] self.swaps@[i].id == i && swap_ok(self.swaps@[i])
        &&& self.config matches Some(c) ==> c.fee_bps <= BPS_DENOMINATOR
        &&& self.config is None ==> self.swaps.len() == 0
        &&& self.baskets@.len() <= u32::MAX
        &&& forall|i: int| 0 <= i < self.baskets@.len() ==> #[trigger] self.baskets@[i].id == i
        &&& self.config is None ==> self.baskets.len() == 0
    }

    /// A fresh, uninitialized swap contract whose own account is `address`.
    pub fn new(address: Address) -> (r: Self)
        ensures
            r.address == address,
            r.config is None,
            r.swaps@.len() == 0,
            r.baskets@.len() == 0,
            r.wf(),
    {
        SwapContract { address, config: None, swaps: Vec::new(), baskets: Vec::new() }
    }

    /// Initialize the swap contract with its administrator, treasury and fee.
    pub fn initialize(&mut self, admin: Address, treasury: Address, fee_bps: u32) -> (r: Result<(), SwapError>)
        requires
            old(self).wf(),
        ensures
            final(self).wf(),
            old(self).initialized() ==> r == Err::<(), SwapError>(SwapError::AlreadyInitialized),
            !old(self).initialized() && fee_bps > BPS_DENOMINATOR ==> r == Err::<(), SwapError>(SwapError::InvalidFee),
            r is Err ==> *final(self) == *old(self),
            !old(self).initialized() && fee_bps <= BPS_DENOMINATOR ==> r is Ok
                && *final(self) == (SwapContract { config: Some(SwapConfig { admin, treasury, fee_bps }), ..*old(self) }),
    {
        if self.config.is_some() {
            return Err(SwapError::AlreadyInitialized);
        }
        if fee_bps > BPS_DENOMINATOR {
            return Err(SwapError::InvalidFee);
        }
        self.config = Some(SwapConfig { admin, treasury, fee_bps });
        Ok(())
    }

    /// Set the fee recipient (administrator only).
    pub fn set_treasury(&mut self, new_treasury: Address) -> (r: Result<(), SwapError>)
        requires
            old(self).wf(),
        ensures
            final(self).wf(),
            !old(self).initialized() ==> r == Err::<(), SwapError>(SwapError::NotInitialized) && *final(self) == *old(self),
            old(self).initialized() ==> r is Ok && *final(self) == (SwapContract {
                config: Some(SwapConfig { treasury: new_treasury, ..old(self).cfg() }),
                ..*old(self)
            }),
    {
        let c = match self.config {
            Some(c) => c,
            None => return Err(SwapError::NotInitialized),
        };
        self.config = Some(SwapConfig { treasury: new_treasury, ..c });
        Ok(())
    }

    /// Set the fee in basis points (administrator only).
    pub fn set_fee_bps(&mut self, new_fee_bps: u32) -> (r: Result<(), SwapError>)
        requires
            old(self).wf(),
        ensures
            final(self).wf(),
            !old(self).initialized() ==> r == Err::<(), SwapError>(SwapError::NotInitialized),
            old(self).initialized() && new_fee_bps > BPS_DENOMINATOR ==> r == Err::<(), SwapError>(SwapError::InvalidFee),
            r is Err ==> *final(self) == *old(self),
            old(self).initialized() && new_fee_bps <= BPS_DENOMINATOR ==> r is Ok && *final(self) == (SwapContract {
                config: Some(SwapConfig { fee_bps: new_fee_bps, ..old(self).cfg() }),
                ..*old(self)
            }),
    {
        let c = match self.config {
            Some(c) => c,
            None => return Err(SwapError::NotInitialized),
        };
        if new_fee_bps > BPS_DENOMINATOR {
            return Err(SwapError::InvalidFee);
        }
        self.config = Some(SwapConfig { fee_bps: new_fee_bps, ..c });
        Ok(())
    }

    /// Set the administrator (current administrator only).
    pub fn set_admin(&mut self, new_admin: Address) -> (r: Result<(), SwapError>)
        requires
            old(self).wf(),
        ensures
            final(self).wf(),
            !old(self).initialized() ==> r == Err::<(), SwapError>(SwapError::NotInitialized) && *final(self) == *old(self),
            old(self).initialized() ==> r is Ok && *final(self) == (SwapContract {
                config: Some(SwapConfig { admin: new_admin, ..old(self).cfg() }),
                ..*old(self)
            }),
    {
        let c = match self.config {
            Some(c) => c,
            None => return Err(SwapError::NotInitialized),
        };
        self.config = Some(SwapConfig { admin: new_admin, ..c });
        Ok(())
    }

    /// Return the configured administrator.
    pub fn get_admin(&self) -> (r: Result<Address, SwapError>)
        ensures
            r == (match self.config {
                Some(c) => Ok::<Address, SwapError>(c.admin),
                None => Err(SwapError::NotInitialized),
            }),
    {
        match self.config {
            Some(c) => Ok(c.admin),
            None => Err(SwapError::NotInitialized),
        }
    }

    /// Return the configured treasury.
    pub fn get_treasury(&self) -> (r: Result<Address, SwapError>)
        ensures
            r == (match self.config {
                Some(c) => Ok::<Address, SwapError>(c.treasury),
                None => Err(SwapError::NotInitialized),
            }),
    {
        match self.config {
            Some(c) => Ok(c.treasury),
            None => Err(SwapError::NotInitialized),
        }
    }

    /// Return the configured fee in basis points.
    pub fn get_fee_bps(&self) -> (r: Result<u32, SwapError>)
        ensures
            r == (match self.config {
                Some(c) => Ok::<u32, SwapError>(c.fee_bps),
                None => Err(SwapError::NotInitialized),
            }),
    {
        match self.config {
            Some(c) => Ok(c.fee_bps),
            None => Err(SwapError::NotInitialized),
        }
    }

    /// Return the number of swaps created so far.
    pub fn swap_count(&self) -> (r: Result<u32, SwapError>)
        requires
            self.wf(),
        ensures
            r == (if self.initialized() { Ok::<u32, SwapError>(self.swaps.len() as u32) } else { Err(SwapError::NotInitialized) }),
    {
        if self.config.is_none() {
            return Err(SwapError::NotInitialized);
        }
        Ok(self.swaps.len() as u32)
    }

    /// The accounts a swap between `party_a` and `party_b` moves tokens
    /// among: the two parties, the treasury and the contract.
    pub open spec fn swap_accounts(&self, party_a: Address, party_b: Address) -> Seq<Address> {
        seq![party_a, party_b, self.cfg().treasury, self.address]
    }

    /// The error `propose_swap_with_options` is refused with, if any.
    /// A swap that may be taken in parts also needs `amount_a * amount_b` to
    /// fit in `i128`.
    pub open spec fn propose_error(&self, amount_a: i128, amount_b: i128, expires_at: u32, ledger: u32, allow_partial: bool)
        -> Option<SwapError>
    {
        if !self.initialized() {
            Some(SwapError::NotInitialized)
        } else if amount_a <= 0 || amount_b <= 0 || (allow_partial && amount_a * amount_b > i128::MAX) {
            Some(SwapError::InvalidAmount)
        } else if expires_at <= ledger {
            Some(SwapError::InvalidDeadline)
        } else if self.swaps.len() >= u32::MAX {
            Some(SwapError::InvalidAmount)
        } else {
            None
        }
    }

    /// The swap that a successful proposal records.
    pub open spec fn proposed(&self, party_a: Address, token_a: Address, amount_a: i128, token_b: Address, amount_b: i128,
        expires_at: u32, allow_partial: bool, escrowed: bool) -> SwapInfo
    {
        SwapInfo {
            id: self.swaps.len() as u32,
            party_a,
            token_a,
            amount_a,
            token_b,
            amount_b,
            expires_at,
            state: SwapState::Pending,
            filled_amount: 0,
            allow_partial,
            escrowed,
        }
    }

    /// Propose a swap of `amount_a` of `token_a` for `amount_b` of `token_b`.
    /// With `allow_partial` party B may take it in parts; with `escrowed`
    /// party A's tokens move into the contract now, otherwise they move
    /// straight from party A (who has approved the contract) on each fill.
    /// Returns the swap id.
    pub fn propose_swap_with_options(
        &mut self,
        party_a: Address,
        token_a: Address,
        amount_a: i128,
        token_b: Address,
        amount_b: i128,
        expires_at: u32,
        allow_partial: bool,
        escrowed: bool,
        ledger: u32,
    ) -> (r: Result<(u32, Vec<Transfer>), SwapError>)
        requires
            old(self).wf(),
        ensures
            final(self).wf(),
            r is Err <==> old(self).propose_error(amount_a, amount_b, expires_at, ledger, allow_partial) is Some,
            r matches Err(e) ==> Some(e) == old(self).propose_error(amount_a, amount_b, expires_at, ledger, allow_partial) && *final(self) == *old(self),
            r matches Ok((id, ts)) ==> {
                &&& id == old(self).swaps.len()
                &&& final(self).swaps@ == old(self).swaps@.push(
                    old(self).proposed(party_a, token_a, amount_a, token_b, amount_b, expires_at, allow_partial, escrowed),
                )
                &&& ts@ == (if escrowed {
                    seq![Transfer::spec_new(token_a, party_a, old(self).address, amount_a)]
                } else {
                    Seq::<Transfer>::empty()
                })
                &&& final(self).config == old(self).config
                &&& final(self).address == old(self).address
                &&& final(self).baskets@ == old(self).baskets@
                &&& forall|t: Address| party_a != old(self).address ==> #[trigger] net_inflow(ts@, t, old(self).address)
                    == escrow_in(final(self).swaps@, t) - escrow_in(old(self).swaps@, t)
            },
            r matches Ok((_, ts)) ==> forall|b: Address| #[trigger] moves_within(ts@, old(self).swap_accounts(party_a, b)),
    {
        if self.config.is_none() {
            return Err(SwapError::NotInitialized);
        }
        if amount_a <= 0 || amount_b <= 0 {
            return Err(SwapError::InvalidAmount);
        }
        if allow_partial && amount_a.checked_mul(amount_b).is_none() {
            return Err(SwapError::InvalidAmount);
        }
        if expires_at <= ledger {
            return Err(SwapError::InvalidDeadline);
        }
        let id: u32 = match (self.swaps.len() as u32).checked_add(1) {
            Some(_) => self.swaps.len() as u32,
            None => return Err(SwapError::InvalidAmount),
        };
        let mut transfers: Vec<Transfer> = Vec::new();
        if escrowed {
            transfers.push(Transfer { token: token_a, from: party_a, to: self.address, amount: amount_a });
        }
        let ghost old_swaps = self.swaps@;
        self.swaps.push(SwapInfo {
            id,
            party_a,
            token_a,
            amount_a,
            token_b,
            amount_b,
            expires_at,
            state: SwapState::Pending,
            filled_amount: 0,
            allow_partial,
            escrowed,
        });
        proof {
            if escrowed {
                assert(transfers@ =~= seq![Transfer::spec_new(token_a, party_a, self.address, amount_a)]);
            } else {
                assert(transfers@ =~= Seq::<Transfer>::empty());
            }
            assert forall|t: Address| party_a != self.address implies #[trigger] net_inflow(transfers@, t, self.address)
                == escrow_in(self.swaps@, t) - escrow_in(old_swaps, t) by {
                lemma_escrow_push(old_swaps, self.swaps@.last(), t);
                if escrowed {
                    lemma_net_inflow_single(transfers@[0], t, self.address);
                    assert(transfers@ =~= seq![transfers@[0]]);
                }
            }
            assert(old(self).address == self.address && old(self).swaps@ == old_swaps);
            assert forall|b: Address| #[trigger] moves_within(transfers@, old(self).swap_accounts(party_a, b)) by {
                lemma_swap_moves_within(*old(self), self.swaps@.last(), b, 0);
            }
            assert(self.swaps@ == old_swaps.push(
                old(self).proposed(party_a, token_a, amount_a, token_b, amount_b, expires_at, allow_partial, escrowed)));
        }
        Ok((id, transfers))
    }

    /// Propose a swap that is taken whole and escrows party A's tokens now.
    pub fn propose_swap(
        &mut self,
        party_a: Address,
        token_a: Address,
        amount_a: i128,
        token_b: Address,
        amount_b: i128,
        expires_at: u32,
        ledger: u32,
    ) -> (r: Result<(u32, Vec<Transfer>), SwapError>)
        requires
            old(self).wf(),
        ensures
            final(self).wf(),
            r is Err <==> old(self).propose_error(amount_a, amount_b, expires_at, ledger, false) is Some,
            r matches Err(e) ==> Some(e) == old(self).propose_error(amount_a, amount_b, expires_at, ledger, false) && *final(self) == *old(self),
            r matches Ok((id, ts)) ==> {
                &&& id == old(self).swaps.len()
                &&& final(self).swaps@ == old(self).swaps@.push(
                    old(self).proposed(party_a, token_a, amount_a, token_b, amount_b, expires_at, false, true),
                )
                &&& ts@ == seq![Transfer::spec_new(token_a, party_a, old(self).address, amount_a)]
                &&& final(self).config == old(self).config
                &&& final(self).address == old(self).address
                &&& final(self).baskets@ == old(self).baskets@
                &&& forall|t: Address| party_a != old(self).address ==> #[trigger] net_inflow(ts@, t, old(self).address)
                    == escrow_in(final(self).swaps@, t) - escrow_in(old(self).swaps@, t)
            },
            r matches Ok((_, ts)) ==> forall|b: Address| #[trigger] moves_within(ts@, old(self).swap_accounts(party_a, b)),
    {
        self.propose_swap_with_options(party_a, token_a, amount_a, token_b, amount_b, expires_at, false, true, ledger)
    }

    /// The error taking swap `id` at `ledger` is refused with, if any.
    pub open spec fn accept_error(&self, id: u32, ledger: u32) -> Option<SwapError> {
        if !self.initialized() {
            Some(SwapError::NotInitialized)
        } else if id >= self.swaps.len() {
            Some(SwapError::SwapNotFound)
        } else if self.swaps@[id as int].state == SwapState::Executed {
            Some(SwapError::AlreadyCompleted)
        } else if self.swaps@[id as int].state == SwapState::Cancelled {
            Some(SwapError::AlreadyCancelled)
        } else if ledger > self.swaps@[id as int].expires_at {
            Some(SwapError::DeadlineExpired)
        } else {
            None
        }
    }

    /// The error taking `fill` units of swap `id` at `ledger` is refused with, if any.
    pub open spec fn partial_error(&self, id: u32, fill: i128, ledger: u32) -> Option<SwapError> {
        if self.accept_error(id, ledger) is Some {
            self.accept_error(id, ledger)
        } else if !self.swaps@[id as int].allow_partial {
            Some(SwapError::PartialFillNotAllowed)
        } else if fill <= 0 || fill > self.swaps@[id as int].amount_a - self.swaps@[id as int].filled_amount {
            Some(SwapError::InvalidAmount)
        } else {
            None
        }
    }

    /// The movements settling the delivery of `fill` units of swap `s` to
    /// `party_b`: B pays the fill's price into the contract, which forwards
    /// it to A minus the fee and pays a positive fee to the treasury; then
    /// `fill` units of token A go to B, out of the escrow or from A directly.
    pub open spec fn fill_transfers(&self, s: SwapInfo, party_b: Address, fill: int) -> Seq<Transfer> {
        let pay = price_of_fill(s, fill) as i128;
        let fee = fee_on(pay, self.cfg().fee_bps);
        seq![
            Transfer::spec_new(s.token_b, party_b, self.address, pay),
            Transfer::spec_new(s.token_b, self.address, s.party_a, (pay - fee) as i128),
        ] + (if fee > 0 {
            seq![Transfer::spec_new(s.token_b, self.address, self.cfg().treasury, fee)]
        } else {
            Seq::<Transfer>::empty()
        }) + seq![Transfer::spec_new(s.token_a, if s.escrowed { self.address } else { s.party_a }, party_b, fill as i128)]
    }

    /// The movements of taking the whole remainder of `s`.
    pub open spec fn settlement(&self, s: SwapInfo, party_b: Address) -> Seq<Transfer> {
        self.fill_transfers(s, party_b, s.amount_a - s.filled_amount)
    }

    /// Delivers `fill` units of pending swap `swap_id` to `party_b`.
    fn fill_swap(&mut self, swap_id: u32, party_b: Address, fill: i128) -> (ts: Vec<Transfer>)
        requires
            old(self).wf(),
            old(self).initialized(),
            swap_id < old(self).swaps.len(),
            old(self).swaps@[swap_id as int].state == SwapState::Pending,
            0 < fill <= old(self).swaps@[swap_id as int].amount_a - old(self).swaps@[swap_id as int].filled_amount,
            !old(self).swaps@[swap_id as int].allow_partial
                ==> fill == old(self).swaps@[swap_id as int].amount_a - old(self).swaps@[swap_id as int].filled_amount,
        ensures
            final(self).wf(),
            ({
                let s = old(self).swaps@[swap_id as int];
                let pay = price_of_fill(s, fill as int);
                &&& 0 <= pay <= s.amount_b
                &&& 0 <= fee_on(pay as i128, old(self).cfg().fee_bps) <= pay
                &&& final(self).swaps@ == old(self).swaps@.update(swap_id as int, after_fill(s, fill as int))
                &&& ts@ == old(self).fill_transfers(s, party_b, fill as int)
                &&& final(self).config == old(self).config
                &&& final(self).address == old(self).address
                &&& final(self).baskets@ == old(self).baskets@
                &&& forall|t: Address| party_b != old(self).address && s.party_a != old(self).address
                    && old(self).cfg().treasury != old(self).address ==> #[trigger] net_inflow(ts@, t, old(self).address)
                    == escrow_in(final(self).swaps@, t) - escrow_in(old(self).swaps@, t)
            }),
    {
        let c = self.config.unwrap();
        let s = self.swaps[swap_id as usize];
        assert(s.id == swap_id);
        let done = s.filled_amount + fill;
        let pay: i128 = if s.filled_amount == 0 && done == s.amount_a {
            proof {
                vstd::arithmetic::div_mod::lemma_div_by_multiple(s.amount_b as int, s.amount_a as int);
                assert(s.amount_b * s.amount_a == s.amount_b * done);
                assert(paid_for(s, done as int) == s.amount_b);
                assert(paid_for(s, 0) == 0);
            }
            s.amount_b
        } else {
            assert(s.allow_partial);
            assert(0 <= s.amount_b * s.filled_amount <= s.amount_b * done <= s.amount_b * s.amount_a) by (nonlinear_arith)
                requires
                    0 <= s.filled_amount <= done <= s.amount_a,
                    s.amount_b > 0;
            assert(s.amount_b * s.amount_a == s.amount_a * s.amount_b) by (nonlinear_arith);
            let before = (s.amount_b * s.filled_amount) / s.amount_a;
            let after = (s.amount_b * done) / s.amount_a;
            assert(0 <= before <= after <= s.amount_b) by (nonlinear_arith)
                requires
                    before == (s.amount_b * s.filled_amount) / (s.amount_a as int),
                    after == (s.amount_b * done) / (s.amount_a as int),
                    0 <= s.amount_b * s.filled_amount <= s.amount_b * done <= s.amount_b * s.amount_a,
                    s.amount_a > 0,
                    s.amount_b > 0;
            after - before
        };
        assert(pay == price_of_fill(s, fill as int));
        assert(0 <= pay <= s.amount_b);
        let fee = match apply_bps_fee(pay, c.fee_bps) {
            Some(f) => f,
            None => 0,
        };
        assert(0 <= fee <= pay) by (nonlinear_arith)
            requires
                fee == fee_on(pay, c.fee_bps),
                pay >= 0,
                c.fee_bps <= 10_000;
        let party_a_amount = pay - fee;
        let ghost old_swaps = self.swaps@;
        let state = if done == s.amount_a { SwapState::Executed } else { SwapState::Pending };
        self.swaps.set(swap_id as usize, SwapInfo { filled_amount: done, state, ..s });
        let mut transfers: Vec<Transfer> = Vec::new();
        transfers.push(Transfer { token: s.token_b, from: party_b, to: self.address, amount: pay });
        transfers.push(Transfer { token: s.token_b, from: self.address, to: s.party_a, amount: party_a_amount });
        if fee > 0 {
            transfers.push(Transfer { token: s.token_b, from: self.address, to: c.treasury, amount: fee });
        }
        let source = if s.escrowed { self.address } else { s.party_a };
        transfers.push(Transfer { token: s.token_a, from: source, to: party_b, amount: fill });
        proof {
            assert(self.swaps@ =~= old_swaps.update(swap_id as int, after_fill(s, fill as int)));
            assert(transfers@ =~= old(self).fill_transfers(s, party_b, fill as int));
            assert forall|i: int| 0 <= i < self.swaps@.len() implies #[trigger] self.swaps@[i].id == i
                && swap_ok(self.swaps@[i]) by {
                assert(old_swaps[i].id == i);
            }
            assert forall|t: Address| party_b != self.address && s.party_a != self.address
                && c.treasury != self.address implies #[trigger] net_inflow(transfers@, t, self.address)
                == escrow_in(self.swaps@, t) - escrow_in(old_swaps, t) by {
                lemma_escrow_update(old_swaps, swap_id as int, self.swaps@[swap_id as int], t);
                reveal_with_fuel(net_inflow, 5);
                let n = transfers@.len();
                assert(transfers@.drop_last().drop_last() =~= transfers@.subrange(0, n - 2));
            }
        }
        transfers
    }

    /// Take the whole remainder of a pending swap as `party_b`, exchanging
    /// both parties' assets atomically.
    pub fn accept_swap(&mut self, swap_id: u32, party_b: Address, ledger: u32) -> (r: Result<(u32, Vec<Transfer>), SwapError>)
        requires
            old(self).wf(),
        ensures
            final(self).wf(),
            r is Err <==> old(self).accept_error(swap_id, ledger) is Some,
            r matches Err(e) ==> Some(e) == old(self).accept_error(swap_id, ledger) && *final(self) == *old(self),
            r matches Ok((id, ts)) ==> {
                let s = old(self).swaps@[swap_id as int];
                let rest = s.amount_a - s.filled_amount;
                &&& id == swap_id
                &&& 0 <= fee_on(price_of_fill(s, rest) as i128, old(self).cfg().fee_bps) <= price_of_fill(s, rest)
                &&& final(self).swaps@ == old(self).swaps@.update(swap_id as int, after_fill(s, rest))
                &&& after_fill(s, rest).state == SwapState::Executed
                &&& after_fill(s, rest).filled_amount == s.amount_a
                &&& ts@ == old(self).settlement(s, party_b)
                &&& final(self).config == old(self).config
                &&& final(self).address == old(self).address
                &&& final(self).baskets@ == old(self).baskets@
                &&& forall|t: Address| party_b != old(self).address && s.party_a != old(self).address
                    && old(self).cfg().treasury != old(self).address ==> #[trigger] net_inflow(ts@, t, old(self).address)
                    == escrow_in(final(self).swaps@, t) - escrow_in(old(self).swaps@, t)
            },
            r matches Ok((_, ts)) ==> moves_within(ts@, old(self).swap_accounts(old(self).swaps@[swap_id as int].party_a, party_b)),
    {
        if self.config.is_none() {
            return Err(SwapError::NotInitialized);
        }
        if swap_id as usize >= self.swaps.len() {
            return Err(SwapError::SwapNotFound);
        }
        let s = self.swaps[swap_id as usize];
        match s.state {
            SwapState::Executed => return Err(SwapError::AlreadyCompleted),
            SwapState::Cancelled => return Err(SwapError::AlreadyCancelled),
            SwapState::Pending => {},
        }
        if ledger > s.expires_at {
            return Err(SwapError::DeadlineExpired);
        }
        assert(s.id == swap_id);
        let transfers = self.fill_swap(swap_id, party_b, s.amount_a - s.filled_amount);
        proof {
            lemma_swap_moves_within(*old(self), s, party_b, s.amount_a - s.filled_amount);
        }
        Ok((swap_id, transfers))
    }

    /// Take `fill` units of token A from a pending swap that allows partial
    /// fills, paying the proportional part of token B; the swap is executed
    /// once fully filled.
    pub fn accept_swap_partial(&mut self, party_b: Address, swap_id: u32, fill: i128, ledger: u32)
        -> (r: Result<Vec<Transfer>, SwapError>)
        requires
            old(self).wf(),
        ensures
            final(self).wf(),
            r is Err <==> old(self).partial_error(swap_id, fill, ledger) is Some,
            r matches Err(e) ==> Some(e) == old(self).partial_error(swap_id, fill, ledger) && *final(self) == *old(self),
            r matches Ok(ts) ==> {
                let s = old(self).swaps@[swap_id as int];
                &&& final(self).swaps@ == old(self).swaps@.update(swap_id as int, after_fill(s, fill as int))
                &&& ts@ == old(self).fill_transfers(s, party_b, fill as int)
                &&& final(self).config == old(self).config
                &&& final(self).address == old(self).address
                &&& final(self).baskets@ == old(self).baskets@
                &&& forall|t: Address| party_b != old(self).address && s.party_a != old(self).address
                    && old(self).cfg().treasury != old(self).address ==> #[trigger] net_inflow(ts@, t, old(self).address)
                    == escrow_in(final(self).swaps@, t) - escrow_in(old(self).swaps@, t)
            },
            r matches Ok(ts) ==> moves_within(ts@, old(self).swap_accounts(old(self).swaps@[swap_id as int].party_a, party_b)),
    {
        if self.config.is_none() {
            return Err(SwapError::NotInitialized);
        }
        if swap_id as usize >= self.swaps.len() {
            return Err(SwapError::SwapNotFound);
        }
        let s = self.swaps[swap_id as usize];
        match s.state {
            SwapState::Executed => return Err(SwapError::AlreadyCompleted),
            SwapState::Cancelled => return Err(SwapError::AlreadyCancelled),
            SwapState::Pending => {},
        }
        if ledger > s.expires_at {
            return Err(SwapError::DeadlineExpired);
        }
        if !s.allow_partial {
            return Err(SwapError::PartialFillNotAllowed);
        }
        assert(s.id == swap_id);
        if fill <= 0 || fill > s.amount_a - s.filled_amount {
            return Err(SwapError::InvalidAmount);
        }
        let transfers = self.fill_swap(swap_id, party_b, fill);
        proof {
            lemma_swap_moves_within(*old(self), s, party_b, fill as int);
        }
        Ok(transfers)
    }

    /// The error `cancel_swap` is refused with, if any.
    pub open spec fn cancel_error(&self, id: u32) -> Option<SwapError> {
        if id >= self.swaps.len() {
            Some(SwapError::SwapNotFound)
        } else if self.swaps@[id as int].state == SwapState::Executed {
            Some(SwapError::AlreadyCompleted)
        } else if self.swaps@[id as int].state == SwapState::Cancelled {
            Some(SwapError::AlreadyCancelled)
        } else {
            None
        }
    }

    /// The refund of cancelling `s`: the undelivered escrow back to party A.
    pub open spec fn cancel_refund(&self, s: SwapInfo) -> Seq<Transfer> {
        if s.escrowed {
            seq![Transfer::spec_new(s.token_a, self.address, s.party_a, (s.amount_a - s.filled_amount) as i128)]
        } else {
            Seq::<Transfer>::empty()
        }
    }

    /// Cancel a pending swap (party A only) and return the undelivered part of its escrow.
    pub fn cancel_swap(&mut self, swap_id: u32) -> (r: Result<Vec<Transfer>, SwapError>)
        requires
            old(self).wf(),
        ensures
            final(self).wf(),
            r is Err <==> old(self).cancel_error(swap_id) is Some,
            r matches Err(e) ==> Some(e) == old(self).cancel_error(swap_id) && *final(self) == *old(self),
            r matches Ok(ts) ==> {
                let s = old(self).swaps@[swap_id as int];
                &&& final(self).swaps@ == old(self).swaps@.update(swap_id as int, SwapInfo { state: SwapState::Cancelled, ..s })
                &&& ts@ == old(self).cancel_refund(s)
                &&& final(self).config == old(self).config
                &&& final(self).address == old(self).address
                &&& final(self).baskets@ == old(self).baskets@
                &&& forall|t: Address| s.party_a != old(self).address ==> #[trigger] net_inflow(ts@, t, old(self).address)
                    == escrow_in(final(self).swaps@, t) - escrow_in(old(self).swaps@, t)
            },
            r matches Ok(ts) ==> forall|b: Address|
                #[trigger] moves_within(ts@, old(self).swap_accounts(old(self).swaps@[swap_id as int].party_a, b)),
    {
        if swap_id as usize >= self.swaps.len() {
            return Err(SwapError::SwapNotFound);
        }
        let s = self.swaps[swap_id as usize];
        match s.state {
            SwapState::Executed => return Err(SwapError::AlreadyCompleted),
            SwapState::Cancelled => return Err(SwapError::AlreadyCancelled),
            SwapState::Pending => {},
        }
        assert(s.id == swap_id);
        let ghost old_swaps = self.swaps@;
        self.swaps.set(swap_id as usize, SwapInfo { state: SwapState::Cancelled, ..s });
        let mut transfers: Vec<Transfer> = Vec::new();
        if s.escrowed {
            transfers.push(Transfer { token: s.token_a, from: self.address, to: s.party_a, amount: s.amount_a - s.filled_amount });
        }
        proof {
            assert forall|i: int| 0 <= i < self.swaps@.len() implies #[trigger] self.swaps@[i].id == i
                && swap_ok(self.swaps@[i]) by {
                assert(old_swaps[i].id == i);
            }
            assert forall|b: Address| #[trigger] moves_within(transfers@, old(self).swap_accounts(s.party_a, b)) by {
                lemma_swap_moves_within(*old(self), s, b, 0);
                if s.escrowed {
                    assert(transfers@ =~= old(self).cancel_refund(s));
                } else {
                    assert(transfers@ =~= old(self).cancel_refund(s));
                }
            }
            assert forall|t: Address| s.party_a != self.address implies #[trigger] net_inflow(transfers@, t, self.address)
                == escrow_in(self.swaps@, t) - escrow_in(old_swaps, t) by {
                lemma_escrow_update(old_swaps, swap_id as int, self.swaps@[swap_id as int], t);
                if s.escrowed {
                    lemma_net_inflow_single(transfers@[0], t, self.address);
                    assert(transfers@ =~= seq![transfers@[0]]);
                }
            }
        }
        Ok(transfers)
    }

    /// Every leg has a positive amount.
    pub open spec fn legs_positive(legs: Seq<BasketLeg>) -> bool {
        forall|i: int| 0 <= i < legs.len() ==> #[trigger] legs[i].amount > 0
    }

    /// The error `propose_basket_swap` is refused with, if any.
    pub open spec fn basket_propose_error(&self, offers: Seq<BasketLeg>, demands: Seq<BasketLeg>, expires_at: u32, ledger: u32)
        -> Option<SwapError>
    {
        if !self.initialized() {
            Some(SwapError::NotInitialized)
        } else if offers.len() == 0 || demands.len() == 0 || !Self::legs_positive(offers) || !Self::legs_positive(demands) {
            Some(SwapError::InvalidAmount)
        } else if expires_at <= ledger {
            Some(SwapError::InvalidDeadline)
        } else if self.baskets.len() >= u32::MAX {
            Some(SwapError::InvalidAmount)
        } else {
            None
        }
    }

    fn check_legs(legs: &Vec<BasketLeg>) -> (r: bool)
        ensures
            r == Self::legs_positive(legs@),
    {
        let n = legs.len();
        let mut k: usize = 0;
        while k < n
            invariant
                n == legs.len(),
                0 <= k <= n,
                forall|i: int| 0 <= i < k ==> #[trigger] legs@[i].amount > 0,
            decreases n - k,
        {
            if legs[k].amount <= 0 {
                return false;
            }
            k = k + 1;
        }
        true
    }

    /// Appends the movements of every leg from `from` to `to`.
    fn push_legs(transfers: &mut Vec<Transfer>, legs: &Vec<BasketLeg>, from: Address, to: Address)
        ensures
            final(transfers)@ == old(transfers)@ + leg_transfers(legs@, from, to),
    {
        let ghost start = transfers@;
        let n = legs.len();
        let mut k: usize = 0;
        while k < n
            invariant
                n == legs.len(),
                0 <= k <= n,
                transfers@ == start + leg_transfers(legs@.take(k as int), from, to),
            decreases n - k,
        {
            let leg = legs[k];
            transfers.push(Transfer { token: leg.token, from, to, amount: leg.amount });
            assert(leg_transfers(legs@.take(k + 1), from, to) =~= leg_transfers(legs@.take(k as int), from, to).push(
                Transfer::spec_new(leg.token, from, to, leg.amount)));
            k = k + 1;
        }
        assert(legs@.take(n as int) =~= legs@);
    }

    /// Propose a basket swap: party A escrows every offered leg now and asks
    /// for every demanded leg. Returns the basket swap id.
    #[verifier::spinoff_prover]
    pub fn propose_basket_swap(
        &mut self,
        party_a: Address,
        offers: Vec<BasketLeg>,
        demands: Vec<BasketLeg>,
        expires_at: u32,
        ledger: u32,
    ) -> (r: Result<(u32, Vec<Transfer>), SwapError>)
        requires
            old(self).wf(),
        ensures
            final(self).wf(),
            r is Err <==> old(self).basket_propose_error(offers@, demands@, expires_at, ledger) is Some,
            r matches Err(e) ==> Some(e) == old(self).basket_propose_error(offers@, demands@, expires_at, ledger)
                && *final(self) == *old(self),
            r matches Ok((id, _)) ==> id == old(self).baskets.len()
                && final(self).baskets@.len() == old(self).baskets@.len() + 1
                && final(self).baskets@.drop_last() == old(self).baskets@
                && final(self).baskets@.last().holds(id, party_a, offers@, demands@, expires_at),
            r matches Ok((_, ts)) ==> ts@ == leg_transfers(offers@, party_a, old(self).address),
            r is Ok ==> final(self).swaps@ == old(self).swaps@ && final(self).config == old(self).config
                && final(self).address == old(self).address,
            r matches Ok((_, ts)) ==> forall|t: Address| party_a != old(self).address ==> #[trigger] net_inflow(ts@, t, old(self).address)
                    == basket_escrow(final(self).baskets@, t) - basket_escrow(old(self).baskets@, t),
            r matches Ok((_, ts)) ==> forall|b: Address| #[trigger] moves_within(ts@, old(self).swap_accounts(party_a, b)),
    {
        if self.config.is_none() {
            return Err(SwapError::NotInitialized);
        }
        if offers.len() == 0 || demands.len() == 0 || !Self::check_legs(&offers) || !Self::check_legs(&demands) {
            return Err(SwapError::InvalidAmount);
        }
        if expires_at <= ledger {
            return Err(SwapError::InvalidDeadline);
        }
        let id: u32 = match (self.baskets.len() as u32).checked_add(1) {
            Some(_) => self.baskets.len() as u32,
            None => return Err(SwapError::InvalidAmount),
        };
        let mut transfers: Vec<Transfer> = Vec::new();
        Self::push_legs(&mut transfers, &offers, party_a, self.address);
        assert(transfers@ =~= leg_transfers(offers@, party_a, self.address));
        let ghost old_baskets = self.baskets@;
        let ghost offers_v = offers@;
        let ghost demands_v = demands@;
        self.baskets.push(BasketSwapInfo { id, party_a, offers, demands, expires_at, state: SwapState::Pending });
        proof {
            assert(self.baskets@.drop_last() =~= old_baskets);
            assert forall|i: int| 0 <= i < self.baskets@.len() implies #[trigger] self.baskets@[i].id == i by {
                if i < old_baskets.len() {
                    assert(self.baskets@[i] == old_baskets[i]);
                }
            }
            let b = self.baskets@.last();
            assert(b.offers@ == offers_v && b.demands@ == demands_v);
            assert forall|t: Address| party_a != self.address implies #[trigger] net_inflow(transfers@, t, self.address)
                == basket_escrow(self.baskets@, t) - basket_escrow(old_baskets, t) by {
                lemma_leg_inflow(offers_v, party_a, self.address, t, self.address);
            }
            assert(old(self).address == self.address && old(self).baskets@ == old_baskets);
            assert forall|b: Address| #[trigger] moves_within(transfers@, old(self).swap_accounts(party_a, b)) by {
                lemma_swap_accounts_contains(*old(self), party_a, b);
                lemma_legs_moves_within(offers_v, party_a, self.address, old(self).swap_accounts(party_a, b));
            }
        }
        Ok((id, transfers))
    }

    /// The error taking or cancelling basket swap `id` at `ledger` is refused with, if any.
    pub open spec fn basket_accept_error(&self, id: u32, ledger: u32) -> Option<SwapError> {
        if !self.initialized() {
            Some(SwapError::NotInitialized)
        } else if id >= self.baskets.len() {
            Some(SwapError::SwapNotFound)
        } else if self.baskets@[id as int].state == SwapState::Executed {
            Some(SwapError::AlreadyCompleted)
        } else if self.baskets@[id as int].state == SwapState::Cancelled {
            Some(SwapError::AlreadyCancelled)
        } else if ledger > self.baskets@[id as int].expires_at {
            Some(SwapError::DeadlineExpired)
        } else {
            None
        }
    }

    /// Take a pending basket swap as `party_b`: every demanded leg goes from
    /// B to A and every escrowed offer from the contract to B, atomically.
    pub fn accept_basket_swap(&mut self, basket_id: u32, party_b: Address, ledger: u32) -> (r: Result<Vec<Transfer>, SwapError>)
        requires
            old(self).wf(),
        ensures
            final(self).wf(),
            r is Err <==> old(self).basket_accept_error(basket_id, ledger) is Some,
            r matches Err(e) ==> Some(e) == old(self).basket_accept_error(basket_id, ledger) && *final(self) == *old(self),
            r matches Ok(ts) ==> {
                let b = old(self).baskets@[basket_id as int];
                &&& final(self).baskets@ == old(self).baskets@.update(basket_id as int,
                    BasketSwapInfo { state: SwapState::Executed, ..b })
                &&& ts@ == leg_transfers(b.demands@, party_b, b.party_a) + leg_transfers(b.offers@, old(self).address, party_b)
                &&& final(self).swaps@ == old(self).swaps@
                &&& final(self).config == old(self).config
                &&& final(self).address == old(self).address
                &&& forall|t: Address| party_b != old(self).address && b.party_a != old(self).address
                    ==> #[trigger] net_inflow(ts@, t, old(self).address)
                    == basket_escrow(final(self).baskets@, t) - basket_escrow(old(self).baskets@, t)
            },
            r matches Ok(ts) ==> moves_within(ts@, old(self).swap_accounts(old(self).baskets@[basket_id as int].party_a, party_b)),
    {
        if self.config.is_none() {
            return Err(SwapError::NotInitialized);
        }
        if basket_id as usize >= self.baskets.len() {
            return Err(SwapError::SwapNotFound);
        }
        let idx = basket_id as usize;
        match self.baskets[idx].state {
            SwapState::Executed => return Err(SwapError::AlreadyCompleted),
            SwapState::Cancelled => return Err(SwapError::AlreadyCancelled),
            SwapState::Pending => {},
        }
        if ledger > self.baskets[idx].expires_at {
            return Err(SwapError::DeadlineExpired);
        }
        let ghost old_baskets = self.baskets@;
        let mut transfers: Vec<Transfer> = Vec::new();
        let party_a = self.baskets[idx].party_a;
        Self::push_legs(&mut transfers, &self.baskets[idx].demands, party_b, party_a);
        let ghost demand_moves = transfers@;
        Self::push_legs(&mut transfers, &self.baskets[idx].offers, self.address, party_b);
        let mut b = self.baskets.remove(idx);
        b.state = SwapState::Executed;
        self.baskets.insert(idx, b);
        proof {
            assert(self.baskets@ =~= old_baskets.update(idx as int, BasketSwapInfo { state: SwapState::Executed, ..old_baskets[idx as int] }));
            assert(transfers@ =~= leg_transfers(old_baskets[idx as int].demands@, party_b, party_a)
                + leg_transfers(old_baskets[idx as int].offers@, self.address, party_b));
            assert forall|i: int| 0 <= i < self.baskets@.len() implies #[trigger] self.baskets@[i].id == i by {
                assert(old_baskets[i].id == i);
            }
            assert forall|t: Address| party_b != self.address && party_a != self.address
                implies #[trigger] net_inflow(transfers@, t, self.address)
                == basket_escrow(self.baskets@, t) - basket_escrow(old_baskets, t) by {
                let bb = old_baskets[idx as int];
                lemma_basket_escrow_update(old_baskets, idx as int, self.baskets@[idx as int], t);
                lemma_net_inflow_append(leg_transfers(bb.demands@, party_b, party_a),
                    leg_transfers(bb.offers@, self.address, party_b), t, self.address);
                lemma_leg_inflow(bb.demands@, party_b, party_a, t, self.address);
                lemma_leg_inflow(bb.offers@, self.address, party_b, t, self.address);
            }
            let accounts = old(self).swap_accounts(party_a, party_b);
            lemma_swap_accounts_contains(*old(self), party_a, party_b);
            lemma_legs_moves_within(old_baskets[idx as int].demands@, party_b, party_a, accounts);
            lemma_legs_moves_within(old_baskets[idx as int].offers@, self.address, party_b, accounts);
            lemma_moves_within_concat(leg_transfers(old_baskets[idx as int].demands@, party_b, party_a),
                leg_transfers(old_baskets[idx as int].offers@, self.address, party_b), accounts);
        }
        Ok(transfers)
    }

    /// The error `cancel_basket_swap` is refused with, if any.
    pub open spec fn basket_cancel_error(&self, id: u32) -> Option<SwapError> {
        if id >= self.baskets.len() {
            Some(SwapError::SwapNotFound)
        } else if self.baskets@[id as int].state == SwapState::Executed {
            Some(SwapError::AlreadyCompleted)
        } else if self.baskets@[id as int].state == SwapState::Cancelled {
            Some(SwapError::AlreadyCancelled)
        } else {
            None
        }
    }

    /// Cancel a pending basket swap (party A only), returning every escrowed offer.
    pub fn cancel_basket_swap(&mut self, basket_id: u32) -> (r: Result<Vec<Transfer>, SwapError>)
        requires
            old(self).wf(),
        ensures
            final(self).wf(),
            r is Err <==> old(self).basket_cancel_error(basket_id) is Some,
            r matches Err(e) ==> Some(e) == old(self).basket_cancel_error(basket_id) && *final(self) == *old(self),
            r matches Ok(ts) ==> {
                let b = old(self).baskets@[basket_id as int];
                &&& final(self).baskets@ == old(self).baskets@.update(basket_id as int,
                    BasketSwapInfo { state: SwapState::Cancelled, ..b })
                &&& ts@ == leg_transfers(b.offers@, old(self).address, b.party_a)
                &&& final(self).swaps@ == old(self).swaps@
                &&& final(self).config == old(self).config
                &&& final(self).address == old(self).address
                &&& forall|t: Address| b.party_a != old(self).address ==> #[trigger] net_inflow(ts@, t, old(self).address)
                    == basket_escrow(final(self).baskets@, t) - basket_escrow(old(self).baskets@, t)
            },
            r matches Ok(ts) ==> forall|b: Address|
                #[trigger] moves_within(ts@, old(self).swap_accounts(old(self).baskets@[basket_id as int].party_a, b)),
    {
        if basket_id as usize >= self.baskets.len() {
            return Err(SwapError::SwapNotFound);
        }
        let idx = basket_id as usize;
        match self.baskets[idx].state {
            SwapState::Executed => return Err(SwapError::AlreadyCompleted),
            SwapState::Cancelled => return Err(SwapError::AlreadyCancelled),
            SwapState::Pending => {},
        }
        let ghost old_baskets = self.baskets@;
        let mut transfers: Vec<Transfer> = Vec::new();
        let party_a = self.baskets[idx].party_a;
        Self::push_legs(&mut transfers, &self.baskets[idx].offers, self.address, party_a);
        let mut b = self.baskets.remove(idx);
        b.state = SwapState::Cancelled;
        self.baskets.insert(idx, b);
        proof {
            assert(self.baskets@ =~= old_baskets.update(idx as int, BasketSwapInfo { state: SwapState::Cancelled, ..old_baskets[idx as int] }));
            assert(transfers@ =~= leg_transfers(old_baskets[idx as int].offers@, self.address, party_a));
            assert forall|b: Address| #[trigger] moves_within(transfers@, old(self).swap_accounts(party_a, b)) by {
                lemma_swap_accounts_contains(*old(self), party_a, b);
                lemma_legs_moves_within(old_baskets[idx as int].offers@, self.address, party_a,
                    old(self).swap_accounts(party_a, b));
            }
            assert forall|i: int| 0 <= i < self.baskets@.len() implies #[trigger] self.baskets@[i].id == i by {
                assert(old_baskets[i].id == i);
            }
            assert forall|t: Address| party_a != self.address implies #[trigger] net_inflow(transfers@, t, self.address)
                == basket_escrow(self.baskets@, t) - basket_escrow(old_baskets, t) by {
                lemma_basket_escrow_update(old_baskets, idx as int, self.baskets@[idx as int], t);
                lemma_leg_inflow(old_baskets[idx as int].offers@, self.address, party_a, t, self.address);
            }
        }
        Ok(transfers)
    }

    /// Return basket swap `basket_id`.
    pub fn get_basket_swap(&self, basket_id: u32) -> (r: Result<&BasketSwapInfo, SwapError>)
        ensures
            basket_id < self.baskets.len() ==> r == Ok::<&BasketSwapInfo, SwapError>(&self.baskets@[basket_id as int]),
            basket_id >= self.baskets.len() ==> r == Err::<&BasketSwapInfo, SwapError>(SwapError::SwapNotFound),
    {
        if (basket_id as usize) < self.baskets.len() {
            Ok(&self.baskets[basket_id as usize])
        } else {
            Err(SwapError::SwapNotFound)
        }
    }

    /// Return swap `swap_id`.
    pub fn get_swap(&self, swap_id: u32) -> (r: Result<SwapInfo, SwapError>)
        ensures
            r == (if swap_id < self.swaps.len() {
                Ok::<SwapInfo, SwapError>(self.swaps@[swap_id as int])
            } else {
                Err(SwapError::SwapNotFound)
            }),
    {
        if (swap_id as usize) < self.swaps.len() {
            Ok(self.swaps[swap_id as usize])
        } else {
            Err(SwapError::SwapNotFound)
        }
    }
}


/// Every movement of a swap's proposal, of a fill and of its cancellation
/// is between two of party A, party B, the treasury and the contract.
proof fn lemma_swap_moves_within(c: SwapContract, s: SwapInfo, party_b: Address, fill: int)
    ensures
        moves_within(seq![Transfer::spec_new(s.token_a, s.party_a, c.address, s.amount_a)], c.swap_accounts(s.party_a, party_b)),
        moves_within(Seq::<Transfer>::empty(), c.swap_accounts(s.party_a, party_b)),
        moves_within(c.fill_transfers(s, party_b, fill), c.swap_accounts(s.party_a, party_b)),
        moves_within(c.cancel_refund(s), c.swap_accounts(s.party_a, party_b)),
{
    let accounts = c.swap_accounts(s.party_a, party_b);
    assert(accounts[0] == s.party_a && accounts[1] == party_b);
    assert(accounts[2] == c.cfg().treasury && accounts[3] == c.address);
    assert(accounts.contains(s.party_a) && accounts.contains(party_b));
    assert(accounts.contains(c.cfg().treasury) && accounts.contains(c.address));
}

proof fn lemma_swap_accounts_contains(c: SwapContract, a: Address, b: Address)
    ensures
        c.swap_accounts(a, b).contains(a),
        c.swap_accounts(a, b).contains(b),
        c.swap_accounts(a, b).contains(c.cfg().treasury),
        c.swap_accounts(a, b).contains(c.address),
{
    let accounts = c.swap_accounts(a, b);
    assert(accounts[0] == a && accounts[1] == b);
    assert(accounts[2] == c.cfg().treasury && accounts[3] == c.address);
}

/// Leg movements from `from` to `to` stay among any accounts holding both.
proof fn lemma_legs_moves_within(legs: Seq<BasketLeg>, from: Address, to: Address, accounts: Seq<Address>)
    requires
        accounts.contains(from),
        accounts.contains(to),
    ensures
        moves_within(leg_transfers(legs, from, to), accounts),
{
}

proof fn lemma_moves_within_concat(a: Seq<Transfer>, b: Seq<Transfer>, accounts: Seq<Address>)
    requires
        moves_within(a, accounts),
        moves_within(b, accounts),
    ensures
        moves_within(a + b, accounts),
{
    assert forall|k: int| 0 <= k < (a + b).len() implies accounts.contains(#[trigger] (a + b)[k].from)
        && accounts.contains((a + b)[k].to) by {
        if k < a.len() {
            assert((a + b)[k] == a[k]);
            assert(accounts.contains(a[k].from) && accounts.contains(a[k].to));
        } else {
            let j = k - a.len();
            assert((a + b)[k] == b[j]);
            assert(accounts.contains(b[j].from) && accounts.contains(b[j].to));
        }
    }
}

/// Law: swap calls only move tokens among the parties, the treasury and the
/// contract. For any run of calls whose movements each stay among the
/// distinct `accounts` (as every call of a swap between two parties does),
/// the accounts' combined holdings of every token are unchanged after the
/// run, and so after each of its calls.
pub proof fn lemma_swap_runs_conserve(calls: Seq<Seq<Transfer>>, accounts: Seq<Address>, token: Address)
    requires
        accounts.no_duplicates(),
        forall|i: int| 0 <= i < calls.len() ==> moves_within(#[trigger] calls[i], accounts),
    ensures
        total_inflow(calls.flatten(), token, accounts) == 0,
{
    lemma_flatten_moves_within(calls, accounts);
    calls.lemma_flatten_and_flatten_alt_are_equivalent();
    lemma_transfers_conserve(calls.flatten(), token, accounts);
}

proof fn lemma_flatten_moves_within(calls: Seq<Seq<Transfer>>, accounts: Seq<Address>)
    requires
        forall|i: int| 0 <= i < calls.len() ==> moves_within(#[trigger] calls[i], accounts),
    ensures
        moves_within(calls.flatten_alt(), accounts),
    decreases calls.len(),
{
    if calls.len() > 0 {
        let front = calls.drop_last();
        assert forall|i: int| 0 <= i < front.len() implies moves_within(#[trigger] front[i], accounts) by {
            assert(front[i] == calls[i]);
        }
        lemma_flatten_moves_within(front, accounts);
        let a = front.flatten_alt();
        let b = calls.last();
        assert(moves_within(calls[calls.len() - 1], accounts));
        assert(calls.flatten_alt() == a + b);
        lemma_moves_within_concat(a, b, accounts);
    }
}


/// Law: swaps only move tokens among the two parties, the treasury and the
/// contract. For the movements of proposing swap `s`, of taking any part
/// `fill` of it by `party_b`, and of cancelling it, the total of every token
/// held by these four (distinct) accounts is unchanged; and of a fill the
/// treasury receives exactly the fee, in `token_b`.
pub proof fn lemma_swap_conserves_balances(c: SwapContract, s: SwapInfo, party_b: Address, fill: int, token: Address)
    requires
        seq![s.party_a, party_b, c.cfg().treasury, c.address].no_duplicates(),
    ensures
        ({
            let accounts = seq![s.party_a, party_b, c.cfg().treasury, c.address];
            let fee = fee_on(price_of_fill(s, fill) as i128, c.cfg().fee_bps);
            &&& total_inflow(seq![Transfer::spec_new(s.token_a, s.party_a, c.address, s.amount_a)], token, accounts) == 0
            &&& total_inflow(c.fill_transfers(s, party_b, fill), token, accounts) == 0
            &&& total_inflow(c.cancel_refund(s), token, accounts) == 0
            &&& net_inflow(c.fill_transfers(s, party_b, fill), token, c.cfg().treasury)
                == (if token == s.token_b && fee > 0 { fee as int } else { 0 })
        }),
{
    let accounts = seq![s.party_a, party_b, c.cfg().treasury, c.address];
    assert(accounts[0] == s.party_a && accounts[1] == party_b);
    assert(accounts[2] == c.cfg().treasury && accounts[3] == c.address);
    assert(accounts.contains(s.party_a) && accounts.contains(party_b));
    assert(accounts.contains(c.cfg().treasury) && accounts.contains(c.address));
    let propose = seq![Transfer::spec_new(s.token_a, s.party_a, c.address, s.amount_a)];
    let refund = c.cancel_refund(s);
    let settle = c.fill_transfers(s, party_b, fill);
    assert(moves_within(propose, accounts));
    assert(moves_within(refund, accounts));
    assert(moves_within(settle, accounts));
    lemma_transfers_conserve(propose, token, accounts);
    lemma_transfers_conserve(refund, token, accounts);
    lemma_transfers_conserve(settle, token, accounts);
    reveal_with_fuel(net_inflow, 5);
    let fee = fee_on(price_of_fill(s, fill) as i128, c.cfg().fee_bps);
    if fee > 0 {
        assert(settle.drop_last().drop_last().drop_last() =~= seq![settle[0]]);
        assert(settle.drop_last().drop_last() =~= seq![settle[0], settle[1]]);
        assert(settle.drop_last() =~= seq![settle[0], settle[1], settle[2]]);
        assert(seq![settle[0]].drop_last() =~= Seq::<Transfer>::empty());
    } else {
        assert(settle.drop_last().drop_last() =~= seq![settle[0]]);
        assert(settle.drop_last() =~= seq![settle[0], settle[1]]);
        assert(seq![settle[0]].drop_last() =~= Seq::<Transfer>::empty());
    }
}

} // verus!
