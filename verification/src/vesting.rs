//! Token vesting: an admin escrows tokens for beneficiaries under a cliff +
//! linear schedule; beneficiaries claim what has vested, the admin may
//! release the remainder early, and may revoke a schedule, taking back the
//! unvested part while the beneficiary keeps what had vested.
use vstd::prelude::*;
use std::collections::HashMap;
use crate::common::{Address, Transfer, trunc_div, net_inflow, lemma_net_inflow_single, map_sum, lemma_map_sum_insert};

verus! {

broadcast use vstd::std_specs::hash::group_hash_axioms;

/// Errors returned by [`VestingContract`].
#[derive(Clone, Copy, Debug, PartialEq, Eq, Structural)]
pub enum VestingError {
    AlreadyInitialized,
    NotInitialized,
    InvalidAmount,
    InvalidSchedule,
    ScheduleAlreadyExists,
    ScheduleNotFound,
    NotAuthorized,
    NothingToClaim,
    AlreadyRevoked,
}

/// Vesting schedule of one beneficiary.
#[derive(Clone, Copy, Debug, PartialEq, Eq, Structural)]
pub struct BeneficiarySchedule {
    /// Total tokens to vest for this beneficiary.
    pub amount: i128,
    /// Ledger sequence at which vesting begins (cliff).
    pub cliff_ledger: u32,
    /// Ledger sequence at which all tokens are fully vested.
    pub end_ledger: u32,
    /// Tokens already claimed by the beneficiary.
    pub claimed: i128,
    /// Whether the schedule has been revoked by the admin.
    pub revoked: bool,
}

/// Snapshot returned by `get_info`.
#[derive(Clone, Copy, Debug, PartialEq, Eq, Structural)]
pub struct VestingInfo {
    pub token: Address,
    pub cliff_ledger: u32,
    pub end_ledger: u32,
    pub amount: i128,
    pub claimed: i128,
    pub revoked: bool,
}

/// Admin and token, fixed at initialization.
#[derive(Clone, Copy, Debug, PartialEq, Eq, Structural)]
pub struct VestingConfig {
    pub admin: Address,
    pub token: Address,
}

/// Vesting contract state.
pub struct VestingContract {
    /// The contract's own account (holds the escrowed tokens).
    pub address: Address,
    pub config: Option<VestingConfig>,
    /// Schedules, keyed by beneficiary.
    pub schedules: HashMap<u64, BeneficiarySchedule>,
}

/// Tokens vested as of `ledger` (ignoring claims): nothing before the cliff,
/// everything from the end on, linear in between (rounded toward zero).
pub open spec fn vested_spec(amount: i128, cliff_ledger: u32, end_ledger: u32, ledger: u32) -> int {
    if ledger < cliff_ledger {
        0
    } else if ledger >= end_ledger {
        amount as int
    } else {
        trunc_div(amount * (ledger - cliff_ledger), end_ledger - cliff_ledger)
    }
}

/// Returns the number of tokens vested as of `ledger`, ignoring already-claimed tokens.
pub fn vested_amount(amount: i128, cliff_ledger: u32, end_ledger: u32, ledger: u32) -> (r: i128)
    requires
        cliff_ledger <= ledger < end_ledger ==> i128::MIN <= amount * (ledger - cliff_ledger) <= i128::MAX,
    ensures
        r == vested_spec(amount, cliff_ledger, end_ledger, ledger),
{
    if ledger < cliff_ledger {
        return 0;
    }
    if ledger >= end_ledger {
        return amount;
    }
    let elapsed = (ledger - cliff_ledger) as i128;
    let total = (end_ledger - cliff_ledger) as i128;
    amount * elapsed / total
}

/// Law: for a non-negative amount, the vested amount never exceeds the
/// amount and never decreases as the ledger advances.
pub proof fn lemma_vested_bounded_and_monotone(amount: i128, cliff_ledger: u32, end_ledger: u32, l1: u32, l2: u32)
    requires
        amount >= 0,
        cliff_ledger < end_ledger,
        l1 <= l2,
    ensures
        0 <= vested_spec(amount, cliff_ledger, end_ledger, l1) <= vested_spec(amount, cliff_ledger, end_ledger, l2) <= amount,
{
    let total = end_ledger - cliff_ledger;
    if cliff_ledger <= l1 < end_ledger {
        let e1 = l1 - cliff_ledger;
        assert(0 <= amount * e1 <= amount * total) by (nonlinear_arith)
            requires 0 <= e1 <= total, amount >= 0;
        assert((amount * e1) / total <= (amount * total) / total) by (nonlinear_arith)
            requires 0 <= amount * e1 <= amount * total, total > 0;
        assert((amount * total) / total == amount) by (nonlinear_arith)
            requires total > 0;
    }
    if cliff_ledger <= l2 < end_ledger {
        let e1 = if l1 < cliff_ledger { 0 } else { l1 - cliff_ledger };
        let e2 = l2 - cliff_ledger;
        assert(0 <= amount * e2 <= amount * total) by (nonlinear_arith)
            requires 0 <= e2 <= total, amount >= 0;
        assert((amount * e2) / total <= (amount * total) / total) by (nonlinear_arith)
            requires 0 <= amount * e2 <= amount * total, total > 0;
        assert((amount * total) / total == amount) by (nonlinear_arith)
            requires total > 0;
        assert(amount * e1 <= amount * e2) by (nonlinear_arith)
            requires 0 <= e1 <= e2, amount >= 0;
        assert((amount * e1) / total <= (amount * e2) / total) by (nonlinear_arith)
            requires 0 <= amount * e1 <= amount * e2, total > 0;
    }
}

/// The error a schedule from `cliff_ledger` to `end_ledger` created at `now` is refused with, if any.
pub open spec fn schedule_error(cliff_ledger: u32, end_ledger: u32, now: u32) -> Option<VestingError> {
    if cliff_ledger >= end_ledger || end_ledger <= now {
        Some(VestingError::InvalidSchedule)
    } else {
        None
    }
}

/// Refuse a schedule whose cliff is not before its end, or whose end is not in the future.
pub fn validate_schedule(cliff_ledger: u32, end_ledger: u32, now: u32) -> (r: Result<(), VestingError>)
    ensures
        r matches Err(e) ==> schedule_error(cliff_ledger, end_ledger, now) == Some(e),
        r is Ok <==> schedule_error(cliff_ledger, end_ledger, now) is None,
{
    if cliff_ledger >= end_ledger || end_ledger <= now {
        return Err(VestingError::InvalidSchedule);
    }
    Ok(())
}

/// Tokens of a schedule that the contract still holds.
pub open spec fn unclaimed(s: BeneficiarySchedule) -> i128 {
    (s.amount - s.claimed) as i128
}

impl VestingContract {
    pub open spec fn initialized(&self) -> bool {
        self.config is Some
    }

    pub open spec fn cfg(&self) -> VestingConfig {
        self.config->0
    }

    /// Everything the contract holds for beneficiaries: the unclaimed part of every schedule.
    pub open spec fn obligations(&self) -> int {
        map_sum(self.schedules@.map_values(|s: BeneficiarySchedule| unclaimed(s)))
    }

    /// Well-formedness: every schedule has `0 <= claimed <= amount` and a cliff before its end.
    pub open spec fn wf(&self) -> bool {
        forall|b: u64| #[trigger] self.schedules@.contains_key(b) ==> {
            let s = self.schedules@[b];
            &&& 0 <= s.claimed <= s.amount
            &&& s.cliff_ledger < s.end_ledger
        }
    }

    /// A fresh, uninitialized vesting contract whose own account is `address`.
    pub fn new(address: Address) -> (r: Self)
        ensures
            r.address == address,
            r.config is None,
            r.schedules@ == Map::<u64, BeneficiarySchedule>::empty(),
            r.wf(),
    {
        VestingContract { address, config: None, schedules: HashMap::new() }
    }

    /// Initialize with the admin and the vested token.
    pub fn initialize(&mut self, admin: Address, token: Address) -> (r: Result<(), VestingError>)
        requires
            old(self).wf(),
        ensures
            final(self).wf(),
            old(self).initialized() ==> r == Err::<(), VestingError>(VestingError::AlreadyInitialized) && *final(self) == *old(self),
            !old(self).initialized() ==> r is Ok && *final(self) == (VestingContract {
                config: Some(VestingConfig { admin, token }),
                ..*old(self)
            }),
    {
        if self.config.is_some() {
            return Err(VestingError::AlreadyInitialized);
        }
        self.config = Some(VestingConfig { admin, token });
        Ok(())
    }

    proof fn lemma_obligations_insert(m: Map<u64, BeneficiarySchedule>, b: u64, s: BeneficiarySchedule)
        requires
            m.dom().finite(),
        ensures
            map_sum(m.insert(b, s).map_values(|x: BeneficiarySchedule| unclaimed(x)))
                == map_sum(m.map_values(|x: BeneficiarySchedule| unclaimed(x)))
                - (if m.dom().contains(b) { unclaimed(m[b]) as int } else { 0 }) + unclaimed(s),
    {
        let f = |x: BeneficiarySchedule| unclaimed(x);
        assert(m.insert(b, s).map_values(f) =~= m.map_values(f).insert(b, unclaimed(s)));
        assert(m.map_values(f).dom() =~= m.dom());
        lemma_map_sum_insert(m.map_values(f), b, unclaimed(s));
    }

    /// The error `create_schedule` is refused with, if any.
    pub open spec fn create_error(&self, beneficiary: Address, cliff_ledger: u32, end_ledger: u32, amount: i128, ledger: u32) -> Option<VestingError> {
        if !self.initialized() {
            Some(VestingError::NotInitialized)
        } else if amount <= 0 {
            Some(VestingError::InvalidAmount)
        } else if schedule_error(cliff_ledger, end_ledger, ledger) is Some {
            schedule_error(cliff_ledger, end_ledger, ledger)
        } else if self.schedules@.contains_key(beneficiary) {
            Some(VestingError::ScheduleAlreadyExists)
        } else {
            None
        }
    }

    /// Create a schedule for `beneficiary` (admin only), pulling `amount` tokens from the admin.
    pub fn create_schedule(&mut self, beneficiary: Address, cliff_ledger: u32, end_ledger: u32, amount: i128, ledger: u32)
        -> (r: Result<Vec<Transfer>, VestingError>)
        requires
            old(self).wf(),
        ensures
            final(self).wf(),
            r is Err <==> old(self).create_error(beneficiary, cliff_ledger, end_ledger, amount, ledger) is Some,
            r matches Err(e) ==> Some(e) == old(self).create_error(beneficiary, cliff_ledger, end_ledger, amount, ledger)
                && *final(self) == *old(self),
            r matches Ok(ts) ==> {
                let c = old(self).cfg();
                &&& final(self).schedules@ == old(self).schedules@.insert(
                    beneficiary,
                    BeneficiarySchedule { amount, cliff_ledger, end_ledger, claimed: 0, revoked: false },
                )
                &&& ts@ == seq![Transfer::spec_new(c.token, c.admin, old(self).address, amount)]
                &&& final(self).config == old(self).config
                &&& final(self).address == old(self).address
                &&& c.admin != old(self).address ==> net_inflow(ts@, c.token, old(self).address)
                    == final(self).obligations() - old(self).obligations()
            },
    {
        let c = match self.config {
            Some(c) => c,
            None => return Err(VestingError::NotInitialized),
        };
        if amount <= 0 {
            return Err(VestingError::InvalidAmount);
        }
        validate_schedule(cliff_ledger, end_ledger, ledger)?;
        if self.schedules.contains_key(&beneficiary) {
            return Err(VestingError::ScheduleAlreadyExists);
        }
        let ghost old_schedules = self.schedules@;
        let schedule = BeneficiarySchedule { amount, cliff_ledger, end_ledger, claimed: 0, revoked: false };
        self.schedules.insert(beneficiary, schedule);
        let mut transfers: Vec<Transfer> = Vec::new();
        transfers.push(Transfer { token: c.token, from: c.admin, to: self.address, amount });
        proof {
            Self::lemma_obligations_insert(old_schedules, beneficiary, schedule);
            lemma_net_inflow_single(transfers@[0], c.token, self.address);
        }
        Ok(transfers)
    }

    /// Computing the vested amount of `s` at `ledger` stays within `i128`.
    pub open spec fn vest_fits(&self, s: BeneficiarySchedule, ledger: u32) -> bool {
        s.cliff_ledger <= ledger < s.end_ledger ==> s.amount * (ledger - s.cliff_ledger) <= i128::MAX
    }

    /// Tokens of `s` vested at `ledger`.
    pub open spec fn vested_now(s: BeneficiarySchedule, ledger: u32) -> int {
        vested_spec(s.amount, s.cliff_ledger, s.end_ledger, ledger)
    }

    /// The error `claim` is refused with, if any.
    pub open spec fn claim_error(&self, beneficiary: Address, ledger: u32) -> Option<VestingError> {
        if !self.initialized() {
            Some(VestingError::NotInitialized)
        } else if !self.schedules@.contains_key(beneficiary) {
            Some(VestingError::ScheduleNotFound)
        } else if Self::vested_now(self.schedules@[beneficiary], ledger) - self.schedules@[beneficiary].claimed <= 0 {
            Some(VestingError::NothingToClaim)
        } else {
            None
        }
    }

    /// Release all vested, unclaimed tokens to the beneficiary. Returns the amount released.
    pub fn claim(&mut self, beneficiary: Address, ledger: u32) -> (r: Result<(i128, Vec<Transfer>), VestingError>)
        requires
            old(self).wf(),
            old(self).schedules@.contains_key(beneficiary) ==> old(self).vest_fits(old(self).schedules@[beneficiary], ledger),
        ensures
            final(self).wf(),
            r is Err <==> old(self).claim_error(beneficiary, ledger) is Some,
            r matches Err(e) ==> Some(e) == old(self).claim_error(beneficiary, ledger) && *final(self) == *old(self),
            r matches Ok((claimable, ts)) ==> {
                let c = old(self).cfg();
                let s = old(self).schedules@[beneficiary];
                &&& claimable == Self::vested_now(s, ledger) - s.claimed
                &&& final(self).schedules@ == old(self).schedules@.insert(
                    beneficiary,
                    BeneficiarySchedule { claimed: (s.claimed + claimable) as i128, ..s },
                )
                &&& ts@ == seq![Transfer::spec_new(c.token, old(self).address, beneficiary, claimable)]
                &&& final(self).config == old(self).config
                &&& final(self).address == old(self).address
                &&& beneficiary != old(self).address ==> net_inflow(ts@, c.token, old(self).address)
                    == final(self).obligations() - old(self).obligations()
            },
    {
        let c = match self.config {
            Some(c) => c,
            None => return Err(VestingError::NotInitialized),
        };
        let s = match self.schedules.get(&beneficiary) {
            Some(s) => *s,
            None => return Err(VestingError::ScheduleNotFound),
        };
        proof {
            lemma_vested_bounded_and_monotone(s.amount, s.cliff_ledger, s.end_ledger, ledger, ledger);
        }
        let vested = vested_amount(s.amount, s.cliff_ledger, s.end_ledger, ledger);
        let claimable = vested - s.claimed;
        if claimable <= 0 {
            return Err(VestingError::NothingToClaim);
        }
        let ghost old_schedules = self.schedules@;
        let updated = BeneficiarySchedule { claimed: s.claimed + claimable, ..s };
        self.schedules.insert(beneficiary, updated);
        let mut transfers: Vec<Transfer> = Vec::new();
        transfers.push(Transfer { token: c.token, from: self.address, to: beneficiary, amount: claimable });
        proof {
            Self::lemma_obligations_insert(old_schedules, beneficiary, updated);
            lemma_net_inflow_single(transfers@[0], c.token, self.address);
        }
        Ok((claimable, transfers))
    }

    /// The error `admin_release` is refused with, if any.
    pub open spec fn release_error(&self, beneficiary: Address) -> Option<VestingError> {
        if !self.initialized() {
            Some(VestingError::NotInitialized)
        } else if !self.schedules@.contains_key(beneficiary) {
            Some(VestingError::ScheduleNotFound)
        } else if self.schedules@[beneficiary].amount - self.schedules@[beneficiary].claimed <= 0 {
            Some(VestingError::NothingToClaim)
        } else {
            None
        }
    }

    /// Admin emergency release: send all remaining unclaimed tokens to the
    /// beneficiary, before or after the cliff. Returns the amount released.
    pub fn admin_release(&mut self, beneficiary: Address) -> (r: Result<(i128, Vec<Transfer>), VestingError>)
        requires
            old(self).wf(),
        ensures
            final(self).wf(),
            r is Err <==> old(self).release_error(beneficiary) is Some,
            r matches Err(e) ==> Some(e) == old(self).release_error(beneficiary) && *final(self) == *old(self),
            r matches Ok((remaining, ts)) ==> {
                let c = old(self).cfg();
                let s = old(self).schedules@[beneficiary];
                &&& remaining == s.amount - s.claimed
                &&& final(self).schedules@ == old(self).schedules@.insert(beneficiary, BeneficiarySchedule { claimed: s.amount, ..s })
                &&& ts@ == seq![Transfer::spec_new(c.token, old(self).address, beneficiary, remaining)]
                &&& final(self).config == old(self).config
                &&& final(self).address == old(self).address
                &&& beneficiary != old(self).address ==> net_inflow(ts@, c.token, old(self).address)
                    == final(self).obligations() - old(self).obligations()
            },
    {
        let c = match self.config {
            Some(c) => c,
            None => return Err(VestingError::NotInitialized),
        };
        let s = match self.schedules.get(&beneficiary) {
            Some(s) => *s,
            None => return Err(VestingError::ScheduleNotFound),
        };
        let remaining = s.amount - s.claimed;
        if remaining <= 0 {
            return Err(VestingError::NothingToClaim);
        }
        let ghost old_schedules = self.schedules@;
        let updated = BeneficiarySchedule { claimed: s.amount, ..s };
        self.schedules.insert(beneficiary, updated);
        let mut transfers: Vec<Transfer> = Vec::new();
        transfers.push(Transfer { token: c.token, from: self.address, to: beneficiary, amount: remaining });
        proof {
            Self::lemma_obligations_insert(old_schedules, beneficiary, updated);
            lemma_net_inflow_single(transfers@[0], c.token, self.address);
        }
        Ok((remaining, transfers))
    }

    /// The error `revoke` is refused with, if any.
    pub open spec fn revoke_error(&self, beneficiary: Address) -> Option<VestingError> {
        if !self.initialized() {
            Some(VestingError::NotInitialized)
        } else if !self.schedules@.contains_key(beneficiary) {
            Some(VestingError::ScheduleNotFound)
        } else if self.schedules@[beneficiary].revoked {
            Some(VestingError::AlreadyRevoked)
        } else {
            None
        }
    }

    /// The schedule after revocation at `ledger`: its amount is capped at what
    /// the beneficiary has vested or already received, and vesting stops at
    /// `ledger`, so the capped amount is fully claimable from then on.
    pub open spec fn revoked_schedule(s: BeneficiarySchedule, ledger: u32) -> BeneficiarySchedule {
        let vested = vested_spec(s.amount, s.cliff_ledger, s.end_ledger, ledger);
        BeneficiarySchedule {
            amount: if vested < s.claimed { s.claimed } else { vested as i128 },
            end_ledger: if s.cliff_ledger < ledger && ledger < s.end_ledger { ledger } else { s.end_ledger },
            revoked: true,
            ..s
        }
    }

    /// Law: revocation splits what was still owed exactly. Once the revoked
    /// schedule has run out (which is immediately when revoked after the
    /// cliff), the beneficiary can claim all of its capped amount, and the
    /// part returned to the admin plus what the beneficiary can still claim is
    /// the unclaimed remainder of the schedule before revocation; neither part is negative.
    pub proof fn lemma_revoke_then_claim(s: BeneficiarySchedule, ledger: u32, later: u32)
        requires
            0 <= s.claimed <= s.amount,
            s.cliff_ledger < s.end_ledger,
            ledger <= later,
            s.cliff_ledger < ledger || s.end_ledger <= later,
        ensures
            ({
                let t = Self::revoked_schedule(s, ledger);
                &&& t.cliff_ledger < t.end_ledger
                &&& t.claimed == s.claimed
                &&& s.claimed <= t.amount <= s.amount
                &&& Self::vested_now(t, later) == t.amount
                &&& (s.amount - t.amount) + (Self::vested_now(t, later) - t.claimed) == s.amount - s.claimed
            }),
    {
        lemma_vested_bounded_and_monotone(s.amount, s.cliff_ledger, s.end_ledger, ledger, ledger);
    }

    /// Revoke `beneficiary`'s schedule (admin only): the unvested remainder
    /// goes back to the admin and is returned; the beneficiary may still claim
    /// what had vested.
    pub fn revoke(&mut self, beneficiary: Address, ledger: u32) -> (r: Result<(i128, Vec<Transfer>), VestingError>)
        requires
            old(self).wf(),
            old(self).schedules@.contains_key(beneficiary) ==> old(self).vest_fits(old(self).schedules@[beneficiary], ledger),
        ensures
            final(self).wf(),
            r is Err <==> old(self).revoke_error(beneficiary) is Some,
            r matches Err(e) ==> Some(e) == old(self).revoke_error(beneficiary) && *final(self) == *old(self),
            r matches Ok((returned, ts)) ==> {
                let c = old(self).cfg();
                let s = old(self).schedules@[beneficiary];
                let t = Self::revoked_schedule(s, ledger);
                &&& returned == s.amount - t.amount
                &&& returned >= 0
                &&& final(self).schedules@ == old(self).schedules@.insert(beneficiary, t)
                &&& ts@ == (if returned > 0 {
                    seq![Transfer::spec_new(c.token, old(self).address, c.admin, returned)]
                } else {
                    Seq::<Transfer>::empty()
                })
                &&& final(self).config == old(self).config
                &&& final(self).address == old(self).address
                &&& c.admin != old(self).address ==> net_inflow(ts@, c.token, old(self).address)
                    == final(self).obligations() - old(self).obligations()
            },
    {
        let c = match self.config {
            Some(c) => c,
            None => return Err(VestingError::NotInitialized),
        };
        let s = match self.schedules.get(&beneficiary) {
            Some(s) => *s,
            None => return Err(VestingError::ScheduleNotFound),
        };
        if s.revoked {
            return Err(VestingError::AlreadyRevoked);
        }
        proof {
            lemma_vested_bounded_and_monotone(s.amount, s.cliff_ledger, s.end_ledger, ledger, ledger);
        }
        let vested = vested_amount(s.amount, s.cliff_ledger, s.end_ledger, ledger);
        let kept = if vested < s.claimed { s.claimed } else { vested };
        let returned = s.amount - kept;
        let end_ledger = if s.cliff_ledger < ledger && ledger < s.end_ledger { ledger } else { s.end_ledger };
        let ghost old_schedules = self.schedules@;
        let updated = BeneficiarySchedule { amount: kept, end_ledger, revoked: true, ..s };
        self.schedules.insert(beneficiary, updated);
        let mut transfers: Vec<Transfer> = Vec::new();
        if returned > 0 {
            transfers.push(Transfer { token: c.token, from: self.address, to: c.admin, amount: returned });
        }
        proof {
            Self::lemma_obligations_insert(old_schedules, beneficiary, updated);
            if returned > 0 {
                lemma_net_inflow_single(transfers@[0], c.token, self.address);
            }
        }
        Ok((returned, transfers))
    }

    /// Return the schedule of `beneficiary`, or `None` when there is none (or the contract is uninitialized).
    pub fn get_info(&self, beneficiary: Address) -> (r: Option<VestingInfo>)
        ensures
            r == (if self.initialized() && self.schedules@.contains_key(beneficiary) {
                let s = self.schedules@[beneficiary];
                Some(VestingInfo {
                    token: self.cfg().token,
                    cliff_ledger: s.cliff_ledger,
                    end_ledger: s.end_ledger,
                    amount: s.amount,
                    claimed: s.claimed,
                    revoked: s.revoked,
                })
            } else {
                None::<VestingInfo>
            }),
    {
        let c = match self.config {
            Some(c) => c,
            None => return None,
        };
        match self.schedules.get(&beneficiary) {
            Some(s) => Some(VestingInfo {
                token: c.token,
                cliff_ledger: s.cliff_ledger,
                end_ledger: s.end_ledger,
                amount: s.amount,
                claimed: s.claimed,
                revoked: s.revoked,
            }),
            None => None,
        }
    }
}

} // verus!
