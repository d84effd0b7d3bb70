//! DAO governance: token holders create proposals and cast token-weighted
//! votes; a proposal passes when it reaches quorum with more yes votes than no
//! votes. Proposals may carry a bond (refunded on success, slashed to the admin
//! otherwise), an action payload dispatched on execution, and the DAO keeps an
//! exponential moving average of participation bounded in basis points.
use vstd::prelude::*;
use std::collections::HashMap;
use crate::common::{Address, Transfer, net_inflow, transfer_delta, lemma_net_inflow_single, BPS_DENOMINATOR, trunc_div, pair_key, make_pair_key, sat_add_u32, sat_mul_u32, sat_sub_u32, saturating_mul_u32, map_sum, lemma_map_sum_insert};

verus! {

broadcast use vstd::std_specs::hash::group_hash_axioms;

/// Default EMA smoothing window (number of proposals).
pub const DEFAULT_QUORUM_EMA_WINDOW: u32 = 10;

/// Errors returned by [`DaoContract`].
#[derive(Clone, Copy, Debug, PartialEq, Eq, Structural)]
pub enum DaoError {
    NotAuthorized,
    AlreadyInitialized,
    NotInitialized,
    ProposalNotFound,
    InvalidState,
    DeadlineNotReached,
    AlreadyVoted,
    QuorumNotMet,
    ProposalRejected,
    InsufficientVotingPower,
    /// Proposer's token balance is below the required proposal bond.
    InsufficientBondBalance,
    /// Action dispatch failed.
    ActionFailed,
}

impl DaoError {
    /// The numeric contract error code of this error.
    pub open spec fn spec_code(self) -> u32 {
        match self {
            DaoError::NotAuthorized => 1,
            DaoError::AlreadyInitialized => 2,
            DaoError::NotInitialized => 3,
            DaoError::ProposalNotFound => 4,
            DaoError::InvalidState => 5,
            DaoError::DeadlineNotReached => 6,
            DaoError::AlreadyVoted => 7,
            DaoError::QuorumNotMet => 8,
            DaoError::ProposalRejected => 9,
            DaoError::InsufficientVotingPower => 10,
            DaoError::InsufficientBondBalance => 11,
            DaoError::ActionFailed => 12,
        }
    }

    /// Returns the numeric contract error code of this error.
    pub fn code(&self) -> (r: u32)
        ensures
            r == self.spec_code(),
    {
        match self {
            DaoError::NotAuthorized => 1,
            DaoError::AlreadyInitialized => 2,
            DaoError::NotInitialized => 3,
            DaoError::ProposalNotFound => 4,
            DaoError::InvalidState => 5,
            DaoError::DeadlineNotReached => 6,
            DaoError::AlreadyVoted => 7,
            DaoError::QuorumNotMet => 8,
            DaoError::ProposalRejected => 9,
            DaoError::InsufficientVotingPower => 10,
            DaoError::InsufficientBondBalance => 11,
            DaoError::ActionFailed => 12,
        }
    }

    /// Returns the human-readable description of this error.
    pub fn message(&self) -> (r: &'static str)
        ensures
            r@ == (match self {
                DaoError::NotAuthorized => "not authorized"@,
                DaoError::AlreadyInitialized => "already initialized"@,
                DaoError::NotInitialized => "not initialized"@,
                DaoError::ProposalNotFound => "proposal not found"@,
                DaoError::InvalidState => "invalid proposal state"@,
                DaoError::DeadlineNotReached => "voting deadline not yet reached"@,
                DaoError::AlreadyVoted => "already voted on this proposal"@,
                DaoError::QuorumNotMet => "quorum not met"@,
                DaoError::ProposalRejected => "proposal rejected by majority"@,
                DaoError::InsufficientVotingPower => "insufficient voting power"@,
                DaoError::InsufficientBondBalance => "insufficient balance for proposal bond"@,
                DaoError::ActionFailed => "proposal action dispatch failed"@,
            }),
    {
        match self {
            DaoError::NotAuthorized => "not authorized",
            DaoError::AlreadyInitialized => "already initialized",
            DaoError::NotInitialized => "not initialized",
            DaoError::ProposalNotFound => "proposal not found",
            DaoError::InvalidState => "invalid proposal state",
            DaoError::DeadlineNotReached => "voting deadline not yet reached",
            DaoError::AlreadyVoted => "already voted on this proposal",
            DaoError::QuorumNotMet => "quorum not met",
            DaoError::ProposalRejected => "proposal rejected by majority",
            DaoError::InsufficientVotingPower => "insufficient voting power",
            DaoError::InsufficientBondBalance => "insufficient balance for proposal bond",
            DaoError::ActionFailed => "proposal action dispatch failed",
        }
    }
}

/// Lifecycle state of a proposal.
#[derive(Clone, Copy, Debug, PartialEq, Eq, Structural)]
pub enum ProposalState {
    Active,
    Executed,
    Cancelled,
}

impl ProposalState {
    /// Returns the lower-case name of the state ("active", "executed" or "cancelled").
    pub fn as_str(&self) -> (r: &'static str)
        ensures
            r@ == (match self {
                ProposalState::Active => "active"@,
                ProposalState::Executed => "executed"@,
                ProposalState::Cancelled => "cancelled"@,
            }),
    {
        match self {
            ProposalState::Active => "active",
            ProposalState::Executed => "executed",
            ProposalState::Cancelled => "cancelled",
        }
    }
}

/// A governance proposal.
///
/// When `action_target`, `action_function` and `action_args` are all set, a
/// successful execution dispatches that call. Each argument is the raw 64-bit
/// payload of a ledger value.
#[derive(Debug)]
pub struct Proposal {
    pub id: u32,
    pub proposer: Address,
    pub title: String,
    pub description: String,
    pub deadline: u32,
    pub yes_votes: i128,
    pub no_votes: i128,
    pub state: ProposalState,
    pub action_target: Option<Address>,
    pub action_function: Option<String>,
    pub action_args: Option<Vec<u64>>,
    /// Token amount escrowed by the proposer at submission time.
    pub bond_amount: i128,
    /// Governance-token supply recorded when the proposal was created; the
    /// votes cast on the proposal never exceed it.
    pub total_supply_at_creation: i128,
}

impl Proposal {
    /// The proposal carries a complete action payload.
    pub open spec fn has_action(&self) -> bool {
        &&& self.action_target is Some
        &&& self.action_function is Some
        &&& self.action_args is Some
    }
}

/// Configuration fixed at initialization.
#[derive(Clone, Copy, Debug, PartialEq, Eq, Structural)]
pub struct DaoConfig {
    pub admin: Address,
    pub token: Address,
    /// Number of ledgers a proposal stays open for voting.
    pub voting_period: u32,
    /// Minimum total votes (in token units) for a valid result.
    pub quorum: i128,
    /// Token units escrowed by a proposer at submission (0 disables bonding).
    pub proposal_bond: i128,
    pub min_quorum_bps: u32,
    pub max_quorum_bps: u32,
    pub quorum_ema_window: u32,
}

/// What [`DaoContract::execute_proposal`] did.
///
/// A failed quorum or majority still slashes the bond and updates the
/// participation average, so the transfers are reported next to the error.
pub struct Execution {
    pub result: Result<(), DaoError>,
    pub transfers: Vec<Transfer>,
    /// The proposal's action payload must now be dispatched.
    pub dispatch_action: bool,
}

/// DAO governance contract state.
pub struct DaoContract {
    /// The contract's own account (holds escrowed bonds).
    pub address: Address,
    pub config: Option<DaoConfig>,
    /// Current smoothed quorum in basis points.
    pub quorum_ema_bps: u32,
    /// Number of proposals included in the average so far.
    pub quorum_ema_count: u32,
    /// Proposals, indexed by their id.
    pub proposals: Vec<Proposal>,
    /// Recorded vote weights, keyed by `pair_key(proposal_id, voter)`.
    pub votes: HashMap<u128, i128>,
}

/// `participation_bps` as a mathematical function.
pub open spec fn participation_bps_spec(total_votes: i128, quorum: i128) -> u32 {
    if quorum <= 0 {
        BPS_DENOMINATOR
    } else {
        let ratio = trunc_div(total_votes * 10_000, quorum as int);
        if ratio > 10_000 {
            BPS_DENOMINATOR
        } else {
            ratio as i128 as u32
        }
    }
}

/// One step of the participation moving average:
/// `(old * (window - 1) + sample * 2) / (window + 1)` in saturating `u32`
/// arithmetic, then raised to `min_bps` and lowered to `max_bps`.
pub open spec fn ema_step(old_ema: u32, sample_bps: u32, window: u32, min_bps: u32, max_bps: u32) -> u32 {
    let numerator = sat_add_u32(sat_mul_u32(old_ema, sat_sub_u32(window, 1)), sat_mul_u32(sample_bps, 2));
    let raw = numerator / sat_add_u32(window, 1);
    let raised = if raw < min_bps { min_bps } else { raw };
    if max_bps < raised { max_bps } else { raised }
}

/// The average lies in `[min_bps, max_bps]` whenever adaptive quorum is on and the band is well-ordered.
pub open spec fn ema_in_band(ema: u32, min_bps: u32, max_bps: u32) -> bool {
    !(min_bps == 0 && max_bps == 0) && min_bps <= max_bps ==> min_bps <= ema <= max_bps
}

/// Law: one step of the moving average never leaves a well-ordered band
/// `[min_bps, max_bps]`, whatever the previous value and the sample.
pub proof fn lemma_ema_step_within_band(old_ema: u32, sample_bps: u32, window: u32, min_bps: u32, max_bps: u32)
    requires
        min_bps <= max_bps,
    ensures
        min_bps <= ema_step(old_ema, sample_bps, window, min_bps, max_bps) <= max_bps,
{
}

/// The escrowed bond that a proposal still holds: its bond while it is active.
pub open spec fn held_bond(p: Proposal) -> int {
    if p.state == ProposalState::Active && p.bond_amount > 0 {
        p.bond_amount as int
    } else {
        0
    }
}

/// Total bond escrow owed by a list of proposals.
pub open spec fn bonds_held(ps: Seq<Proposal>) -> int
    decreases ps.len(),
{
    if ps.len() == 0 {
        0
    } else {
        bonds_held(ps.drop_last()) + held_bond(ps.last())
    }
}

/// Replacing one proposal changes the escrow by the difference of their held bonds.
pub proof fn lemma_bonds_held_update(ps: Seq<Proposal>, i: int, q: Proposal)
    requires
        0 <= i < ps.len(),
    ensures
        bonds_held(ps.update(i, q)) == bonds_held(ps) - held_bond(ps[i]) + held_bond(q),
    decreases ps.len(),
{
    if i == ps.len() - 1 {
        assert(ps.update(i, q).drop_last() =~= ps.drop_last());
    } else {
        lemma_bonds_held_update(ps.drop_last(), i, q);
        assert(ps.update(i, q).drop_last() =~= ps.drop_last().update(i, q));
    }
}

/// The vote weights recorded on proposal `id` (vote keys carry the proposal
/// id in their high 64 bits).
pub open spec fn weights_on(votes: Map<u128, i128>, id: u32) -> Map<u128, i128> {
    votes.filter_keys(|k: u128| k >> 64u128 == id as u128)
}

/// Every recorded vote belongs to an existing proposal, and each proposal's
/// yes and no votes together are the sum of the weights recorded on it.
pub open spec fn tallies_match(proposals: Seq<Proposal>, votes: Map<u128, i128>) -> bool {
    &&& forall|k: u128| #[trigger] votes.contains_key(k) ==> (k >> 64u128) < proposals.len()
    &&& forall|i: int| 0 <= i < proposals.len() ==>
        #[trigger] proposals[i].yes_votes + proposals[i].no_votes == map_sum(weights_on(votes, i as u32))
}

/// The proposal a vote key belongs to.
proof fn lemma_pair_key_high(a: u64, b: u64)
    ensures
        pair_key(a, b) >> 64u128 == a as u128,
{
    assert((((a as u128) << 64u128) | (b as u128)) >> 64u128 == a as u128) by (bit_vector);
}

/// The weights recorded on one proposal form a finite map.
proof fn lemma_weights_on_finite(votes: Map<u128, i128>, id: u32)
    requires
        votes.dom().finite(),
    ensures
        weights_on(votes, id).dom().finite(),
{
    let p = |k: u128| k >> 64u128 == id as u128;
    votes.dom().lemma_len_filter(p);
    assert(weights_on(votes, id).dom() =~= votes.dom().filter(p));
}

/// Recording a new vote of weight `w` on proposal `id` adds `w` to the
/// weights on `id` and leaves every other proposal's weights unchanged.
proof fn lemma_weights_on_insert(votes: Map<u128, i128>, id: u32, voter: u64, w: i128, j: u32)
    requires
        votes.dom().finite(),
        !votes.contains_key(pair_key(id as u64, voter)),
    ensures
        map_sum(weights_on(votes.insert(pair_key(id as u64, voter), w), j))
            == map_sum(weights_on(votes, j)) + (if j == id { w as int } else { 0 }),
{
    let k = pair_key(id as u64, voter);
    lemma_pair_key_high(id as u64, voter);
    lemma_weights_on_finite(votes, j);
    if j == id {
        assert(weights_on(votes.insert(k, w), j) =~= weights_on(votes, j).insert(k, w));
        lemma_map_sum_insert(weights_on(votes, j), k, w);
    } else {
        assert(weights_on(votes.insert(k, w), j) =~= weights_on(votes, j));
    }
}

/// No weights are recorded on a proposal id that no vote key carries.
proof fn lemma_weights_on_none(votes: Map<u128, i128>, id: u32)
    requires
        forall|k: u128| #[trigger] votes.contains_key(k) ==> (k >> 64u128) < id,
    ensures
        map_sum(weights_on(votes, id)) == 0,
{
    assert(weights_on(votes, id) =~= Map::<u128, i128>::empty());
    assert(Map::<u128, i128>::empty().dom() =~= Set::<u128>::empty());
}

/// The votes cast on a proposal do not exceed the supply recorded at its creation.
pub open spec fn within_supply(p: Proposal) -> bool {
    p.yes_votes + p.no_votes == 0 || p.yes_votes + p.no_votes <= p.total_supply_at_creation
}

/// The weight a vote counts with: the voter's balance, capped at the part of
/// the recorded supply that has not voted yet.
pub open spec fn capped_weight(p: Proposal, balance: i128) -> int {
    let room = p.total_supply_at_creation - (p.yes_votes + p.no_votes);
    if balance < room { balance as int } else { room }
}

/// Replacing a proposal by one with the same id, tallies and recorded
/// supply keeps the per-proposal invariants and the tally law.
proof fn lemma_replace_same_tally(ps: Seq<Proposal>, votes: Map<u128, i128>, idx: int, q: Proposal)
    requires
        0 <= idx < ps.len(),
        forall|i: int| 0 <= i < ps.len() ==> {
            &&& #[trigger] ps[i].id == i
            &&& ps[i].yes_votes >= 0
            &&& ps[i].no_votes >= 0
            &&& within_supply(ps[i])
        },
        tallies_match(ps, votes),
        q.id == ps[idx].id,
        q.yes_votes == ps[idx].yes_votes,
        q.no_votes == ps[idx].no_votes,
        q.total_supply_at_creation == ps[idx].total_supply_at_creation,
    ensures
        forall|i: int| 0 <= i < ps.update(idx, q).len() ==> {
            &&& #[trigger] ps.update(idx, q)[i].id == i
            &&& ps.update(idx, q)[i].yes_votes >= 0
            &&& ps.update(idx, q)[i].no_votes >= 0
            &&& within_supply(ps.update(idx, q)[i])
        },
        tallies_match(ps.update(idx, q), votes),
{
    let qs = ps.update(idx, q);
    assert forall|i: int| 0 <= i < qs.len() implies #[trigger] qs[i].yes_votes + qs[i].no_votes
        == map_sum(weights_on(votes, i as u32)) by {
        assert(ps[i].id == i);
    }
    assert forall|i: int| 0 <= i < qs.len() implies {
        &&& #[trigger] qs[i].id == i
        &&& qs[i].yes_votes >= 0
        &&& qs[i].no_votes >= 0
        &&& within_supply(qs[i])
    } by {
        assert(ps[i].id == i);
    }
}

/// A DAO that differs from a well-formed one only in one proposal with the
/// same id, tallies and recorded supply is well-formed.
proof fn lemma_replace_keeps_wf(before: DaoContract, after: DaoContract, idx: int)
    requires
        before.wf(),
        0 <= idx < before.proposals.len(),
        after.proposals@ == before.proposals@.update(idx, after.proposals@[idx]),
        after.proposals@[idx].id == before.proposals@[idx].id,
        after.proposals@[idx].yes_votes == before.proposals@[idx].yes_votes,
        after.proposals@[idx].no_votes == before.proposals@[idx].no_votes,
        after.proposals@[idx].total_supply_at_creation == before.proposals@[idx].total_supply_at_creation,
        after.votes@ == before.votes@,
        after.config == before.config,
        after.quorum_ema_bps == before.quorum_ema_bps,
    ensures
        after.wf(),
{
    lemma_replace_same_tally(before.proposals@, before.votes@, idx, after.proposals@[idx]);
}

impl DaoContract {
    pub open spec fn initialized(&self) -> bool {
        self.config is Some
    }

    pub open spec fn cfg(&self) -> DaoConfig {
        self.config->0
    }

    /// `voter` has voted on proposal `id`.
    pub open spec fn has_voted(&self, id: u32, voter: Address) -> bool {
        self.votes@.contains_key(pair_key(id as u64, voter))
    }

    /// Well-formedness: proposals are stored at their id, tallies are
    /// non-negative and are exactly the sums of the recorded vote weights.
    pub open spec fn wf(&self) -> bool {
        &&& self.proposals.len() <= u32::MAX
        &&& forall|i: int|
            0 <= i < self.proposals.len() ==> {
                &&& #[trigger] self.proposals@[i].id == i
                &&& self.proposals@[i].yes_votes >= 0
                &&& self.proposals@[i].no_votes >= 0
                &&& within_supply(self.proposals@[i])
            }
        &&& self.config is None ==> self.proposals.len() == 0
        &&& self.config matches Some(c) ==> ema_in_band(self.quorum_ema_bps, c.min_quorum_bps, c.max_quorum_bps)
        &&& tallies_match(self.proposals@, self.votes@)
    }

    /// The participation average after one more sample, as stored by the DAO.
    pub open spec fn ema_after(&self, sample_bps: u32) -> (u32, u32) {
        let c = self.cfg();
        if c.min_quorum_bps == 0 && c.max_quorum_bps == 0 {
            (self.quorum_ema_bps, self.quorum_ema_count)
        } else {
            (
                ema_step(self.quorum_ema_bps, sample_bps, c.quorum_ema_window, c.min_quorum_bps, c.max_quorum_bps),
                sat_add_u32(self.quorum_ema_count, 1),
            )
        }
    }

    /// A fresh, uninitialized DAO whose own account is `address`.
    pub fn new(address: Address) -> (r: Self)
        ensures
            r.address == address,
            r.config is None,
            r.quorum_ema_bps == 0,
            r.quorum_ema_count == 0,
            r.proposals@.len() == 0,
            r.votes@ == Map::<u128, i128>::empty(),
            r.wf(),
    {
        DaoContract {
            address,
            config: None,
            quorum_ema_bps: 0,
            quorum_ema_count: 0,
            proposals: Vec::new(),
            votes: HashMap::new(),
        }
    }

    /// Initialize the DAO. The average starts at the midpoint of the allowed band.
    pub fn initialize(
        &mut self,
        admin: Address,
        token: Address,
        voting_period: u32,
        quorum: i128,
        proposal_bond: i128,
        min_quorum_bps: u32,
        max_quorum_bps: u32,
    ) -> (r: Result<(), DaoError>)
        requires
            old(self).wf(),
            !old(self).initialized() ==> min_quorum_bps + max_quorum_bps <= u32::MAX,
        ensures
            final(self).wf(),
            old(self).initialized() ==> r == Err::<(), DaoError>(DaoError::AlreadyInitialized) && *final(self) == *old(self),
            !old(self).initialized() ==> {
                &&& r is Ok
                &&& final(self).config == Some(DaoConfig {
                    admin,
                    token,
                    voting_period,
                    quorum,
                    proposal_bond,
                    min_quorum_bps,
                    max_quorum_bps,
                    quorum_ema_window: DEFAULT_QUORUM_EMA_WINDOW,
                })
                &&& final(self).quorum_ema_bps == (min_quorum_bps + max_quorum_bps) / 2
                &&& final(self).quorum_ema_count == 0
                &&& final(self).address == old(self).address
                &&& final(self).proposals@ == old(self).proposals@
                &&& final(self).votes@ == old(self).votes@
            },
    {
        if self.config.is_some() {
            return Err(DaoError::AlreadyInitialized);
        }
        self.config = Some(DaoConfig {
            admin,
            token,
            voting_period,
            quorum,
            proposal_bond,
            min_quorum_bps,
            max_quorum_bps,
            quorum_ema_window: DEFAULT_QUORUM_EMA_WINDOW,
        });
        self.quorum_ema_bps = (min_quorum_bps + max_quorum_bps) / 2;
        self.quorum_ema_count = 0;
        Ok(())
    }

    /// The error `create_proposal` returns for a proposer holding `balance`, if any.
    pub open spec fn create_error(&self, balance: i128) -> Option<DaoError> {
        if !self.initialized() {
            Some(DaoError::NotInitialized)
        } else if balance <= 0 {
            Some(DaoError::InsufficientVotingPower)
        } else if self.cfg().proposal_bond > 0 && balance < self.cfg().proposal_bond {
            Some(DaoError::InsufficientBondBalance)
        } else {
            None
        }
    }

    /// Create a new proposal; `balance` is the proposer's governance-token
    /// balance and `total_supply` the token's total supply, recorded on the
    /// proposal as the cap on the votes it can receive.
    ///
    /// When the bond is positive, exactly that amount is moved from the proposer
    /// into the DAO. Returns the new proposal id and the transfers to perform.
    pub fn create_proposal(
        &mut self,
        proposer: Address,
        title: String,
        description: String,
        action_target: Option<Address>,
        action_function: Option<String>,
        action_args: Option<Vec<u64>>,
        balance: i128,
        total_supply: i128,
        ledger: u32,
    ) -> (r: Result<(u32, Vec<Transfer>), DaoError>)
        requires
            old(self).wf(),
            old(self).create_error(balance) is None ==> {
                &&& old(self).proposals.len() < u32::MAX
                &&& ledger + old(self).cfg().voting_period <= u32::MAX
            },
        ensures
            final(self).wf(),
            r is Err <==> old(self).create_error(balance) is Some,
            r matches Err(e) ==> Some(e) == old(self).create_error(balance) && *final(self) == *old(self),
            r matches Ok((id, ts)) ==> {
                let c = old(self).cfg();
                &&& id == old(self).proposals.len()
                &&& final(self).proposals@ == old(self).proposals@.push(Proposal {
                    id,
                    proposer,
                    title,
                    description,
                    deadline: (ledger + c.voting_period) as u32,
                    yes_votes: 0,
                    no_votes: 0,
                    state: ProposalState::Active,
                    action_target,
                    action_function,
                    action_args,
                    bond_amount: c.proposal_bond,
                    total_supply_at_creation: total_supply,
                })
                &&& ts@ == (if c.proposal_bond > 0 {
                    seq![Transfer::spec_new(c.token, proposer, old(self).address, c.proposal_bond)]
                } else {
                    Seq::<Transfer>::empty()
                })
                &&& final(self).config == old(self).config
                &&& final(self).address == old(self).address
                &&& final(self).quorum_ema_bps == old(self).quorum_ema_bps
                &&& final(self).quorum_ema_count == old(self).quorum_ema_count
                &&& final(self).votes@ == old(self).votes@
                &&& proposer != old(self).address ==> net_inflow(ts@, c.token, old(self).address)
                    == bonds_held(final(self).proposals@) - bonds_held(old(self).proposals@)
            },
    {
        let c = match self.config {
            Some(c) => c,
            None => return Err(DaoError::NotInitialized),
        };
        if balance <= 0 {
            return Err(DaoError::InsufficientVotingPower);
        }
        let mut transfers: Vec<Transfer> = Vec::new();
        if c.proposal_bond > 0 {
            if balance < c.proposal_bond {
                return Err(DaoError::InsufficientBondBalance);
            }
            transfers.push(Transfer { token: c.token, from: proposer, to: self.address, amount: c.proposal_bond });
        }
        let id = self.proposals.len() as u32;
        let deadline = ledger + c.voting_period;
        let proposal = Proposal {
            id,
            proposer,
            title,
            description,
            deadline,
            yes_votes: 0,
            no_votes: 0,
            state: ProposalState::Active,
            action_target,
            action_function,
            action_args,
            bond_amount: c.proposal_bond,
            total_supply_at_creation: total_supply,
        };
        let ghost old_proposals = self.proposals@;
        self.proposals.push(proposal);
        assert(forall|i: int| 0 <= i < self.proposals.len() ==> #[trigger] self.proposals@[i].id == i);
        proof {
            assert(self.proposals@.drop_last() =~= old_proposals);
            lemma_weights_on_none(self.votes@, id);
            assert forall|i: int| 0 <= i < self.proposals.len() implies #[trigger] self.proposals@[i].yes_votes
                + self.proposals@[i].no_votes == map_sum(weights_on(self.votes@, i as u32)) by {
                if i < old_proposals.len() {
                    assert(self.proposals@[i] == old_proposals[i]);
                }
            }
            if c.proposal_bond > 0 {
                lemma_net_inflow_single(transfers@[0], c.token, self.address);
                assert(transfers@ =~= seq![transfers@[0]]);
            }
        }
        Ok((id, transfers))
    }

    /// The error `vote` returns, if any, for a voter whose token balance is `weight`.
    pub open spec fn vote_error(&self, voter: Address, id: u32, weight: i128, ledger: u32) -> Option<DaoError> {
        if !self.initialized() {
            Some(DaoError::NotInitialized)
        } else if id >= self.proposals.len() {
            Some(DaoError::ProposalNotFound)
        } else if self.proposals@[id as int].state != ProposalState::Active {
            Some(DaoError::InvalidState)
        } else if ledger > self.proposals@[id as int].deadline {
            Some(DaoError::DeadlineNotReached)
        } else if self.has_voted(id, voter) {
            Some(DaoError::AlreadyVoted)
        } else if capped_weight(self.proposals@[id as int], weight) <= 0 {
            Some(DaoError::InsufficientVotingPower)
        } else {
            None
        }
    }

    /// Cast a vote on an active proposal; `weight` is the voter's current
    /// token balance. The vote counts with that balance capped at the part of
    /// the proposal's recorded supply that has not voted yet.
    pub fn vote(&mut self, voter: Address, proposal_id: u32, support: bool, weight: i128, ledger: u32) -> (r: Result<(), DaoError>)
        requires
            old(self).wf(),
        ensures
            final(self).wf(),
            r is Err <==> old(self).vote_error(voter, proposal_id, weight, ledger) is Some,
            r matches Err(e) ==> Some(e) == old(self).vote_error(voter, proposal_id, weight, ledger) && *final(self) == *old(self),
            r is Ok ==> {
                let p = old(self).proposals@[proposal_id as int];
                let w = capped_weight(p, weight);
                &&& final(self).proposals@ == old(self).proposals@.update(
                    proposal_id as int,
                    Proposal {
                        yes_votes: if support { (p.yes_votes + w) as i128 } else { p.yes_votes },
                        no_votes: if support { p.no_votes } else { (p.no_votes + w) as i128 },
                        ..p
                    },
                )
                &&& final(self).votes@ == old(self).votes@.insert(pair_key(proposal_id as u64, voter), w as i128)
                &&& final(self).config == old(self).config
                &&& final(self).address == old(self).address
                &&& final(self).quorum_ema_bps == old(self).quorum_ema_bps
                &&& final(self).quorum_ema_count == old(self).quorum_ema_count
            },
    {
        if self.config.is_none() {
            return Err(DaoError::NotInitialized);
        }
        if proposal_id as usize >= self.proposals.len() {
            return Err(DaoError::ProposalNotFound);
        }
        let idx = proposal_id as usize;
        if self.proposals[idx].state != ProposalState::Active {
            return Err(DaoError::InvalidState);
        }
        if ledger > self.proposals[idx].deadline {
            return Err(DaoError::DeadlineNotReached);
        }
        let key = make_pair_key(proposal_id as u64, voter);
        if self.votes.contains_key(&key) {
            return Err(DaoError::AlreadyVoted);
        }
        let cast = self.proposals[idx].yes_votes + self.proposals[idx].no_votes;
        let room = self.proposals[idx].total_supply_at_creation - cast;
        let counted = if weight < room { weight } else { room };
        if counted <= 0 {
            return Err(DaoError::InsufficientVotingPower);
        }
        let ghost old_proposals = self.proposals@;
        let mut p = self.proposals.remove(idx);
        if support {
            p.yes_votes = p.yes_votes + counted;
        } else {
            p.no_votes = p.no_votes + counted;
        }
        self.proposals.insert(idx, p);
        assert(self.proposals@ =~= old_proposals.update(idx as int, self.proposals@[idx as int]));
        let ghost old_votes = self.votes@;
        self.votes.insert(key, counted);
        proof {
            lemma_pair_key_high(proposal_id as u64, voter);
            assert forall|i: int| 0 <= i < self.proposals.len() implies #[trigger] self.proposals@[i].yes_votes
                + self.proposals@[i].no_votes == map_sum(weights_on(self.votes@, i as u32)) by {
                lemma_weights_on_insert(old_votes, proposal_id, voter, counted, i as u32);
                assert(old_proposals[i].yes_votes + old_proposals[i].no_votes == map_sum(weights_on(old_votes, i as u32)));
            }
        }
        assert forall|i: int| 0 <= i < self.proposals.len() implies {
            &&& #[trigger] self.proposals@[i].id == i
            &&& self.proposals@[i].yes_votes >= 0
            &&& self.proposals@[i].no_votes >= 0
            &&& within_supply(self.proposals@[i])
        } by {
            assert(old_proposals[i].id == i);
        }
        Ok(())
    }

    /// Participation as a fraction of the absolute quorum floor, in basis
    /// points, capped at 10 000. A non-positive quorum counts as full
    /// participation.
    pub fn participation_bps(total_votes: i128, quorum: i128) -> (r: u32)
        requires
            quorum > 0 ==> i128::MIN <= total_votes * 10_000 <= i128::MAX,
        ensures
            r == participation_bps_spec(total_votes, quorum),
    {
        if quorum <= 0 {
            return BPS_DENOMINATOR;
        }
        let ratio = (total_votes * (BPS_DENOMINATOR as i128)) / quorum;
        if ratio > BPS_DENOMINATOR as i128 {
            BPS_DENOMINATOR
        } else {
            ratio as u32
        }
    }

    /// Fold one participation sample into the moving average (no-op when both
    /// bounds are zero).
    fn update_quorum_ema(&mut self, sample_bps: u32)
        requires
            old(self).initialized(),
            old(self).wf(),
        ensures
            final(self).wf(),
            (final(self).quorum_ema_bps, final(self).quorum_ema_count) == old(self).ema_after(sample_bps),
            final(self).config == old(self).config,
            final(self).address == old(self).address,
            final(self).proposals@ == old(self).proposals@,
            final(self).votes@ == old(self).votes@,
    {
        let c = match self.config {
            Some(c) => c,
            None => return,
        };
        let min_bps = c.min_quorum_bps;
        let max_bps = c.max_quorum_bps;
        if min_bps == 0 && max_bps == 0 {
            return;
        }
        let window = c.quorum_ema_window;
        let old_ema = self.quorum_ema_bps;
        let numerator = saturating_mul_u32(old_ema, window.saturating_sub(1)).saturating_add(
            saturating_mul_u32(sample_bps, 2),
        );
        let denominator = window.saturating_add(1);
        let new_ema_raw = numerator / denominator;
        let raised = if new_ema_raw < min_bps {
            min_bps
        } else {
            new_ema_raw
        };
        let new_ema = if max_bps < raised {
            max_bps
        } else {
            raised
        };
        proof {
            if min_bps <= max_bps {
                lemma_ema_step_within_band(old_ema, sample_bps, window, min_bps, max_bps);
            }
        }
        self.quorum_ema_bps = new_ema;
        self.quorum_ema_count = self.quorum_ema_count.saturating_add(1);
    }

    /// The transfer that slashes a bond to the admin treasury.
    pub open spec fn slash_transfer(&self, p: Proposal) -> Transfer {
        Transfer::spec_new(self.cfg().token, self.address, self.cfg().admin, p.bond_amount)
    }

    /// The error `execute_proposal` reports before looking at the votes, if any.
    pub open spec fn execute_precheck(&self, id: u32, ledger: u32) -> Option<DaoError> {
        if !self.initialized() {
            Some(DaoError::NotInitialized)
        } else if id >= self.proposals.len() {
            Some(DaoError::ProposalNotFound)
        } else if self.proposals@[id as int].state != ProposalState::Active {
            Some(DaoError::InvalidState)
        } else if ledger <= self.proposals@[id as int].deadline {
            Some(DaoError::DeadlineNotReached)
        } else {
            None
        }
    }

    /// Execute a passed proposal after its deadline.
    ///
    /// - Quorum not met: the bond (if any) is slashed to the admin, a zero
    ///   participation sample enters the average, and `QuorumNotMet` is reported.
    /// - Quorum met but `yes_votes <= no_votes`: the bond is slashed, the
    ///   participation sample enters the average, and `ProposalRejected` is reported.
    /// - Otherwise the proposal becomes `Executed`, the bond is refunded to the
    ///   proposer, the action payload (if complete) is dispatched, and the
    ///   participation sample enters the average.
    pub fn execute_proposal(&mut self, proposal_id: u32, ledger: u32) -> (r: Execution)
        requires
            old(self).wf(),
            old(self).execute_precheck(proposal_id, ledger) is None && old(self).cfg().quorum > 0 ==> {
                let p = old(self).proposals@[proposal_id as int];
                p.yes_votes + p.no_votes >= old(self).cfg().quorum ==> (p.yes_votes + p.no_votes) * 10_000 <= i128::MAX
            },
        ensures
            final(self).wf(),
            old(self).execute_precheck(proposal_id, ledger) matches Some(e) ==> {
                &&& r.result == Err::<(), DaoError>(e)
                &&& r.transfers@.len() == 0
                &&& !r.dispatch_action
                &&& *final(self) == *old(self)
            },
            old(self).execute_precheck(proposal_id, ledger) is None ==> {
                let c = old(self).cfg();
                let p = old(self).proposals@[proposal_id as int];
                let total = p.yes_votes + p.no_votes;
                let bond_moves = if p.bond_amount > 0 {
                    seq![if total >= c.quorum && p.yes_votes > p.no_votes {
                        Transfer::spec_new(c.token, old(self).address, p.proposer, p.bond_amount)
                    } else {
                        old(self).slash_transfer(p)
                    }]
                } else {
                    Seq::<Transfer>::empty()
                };
                let sample = if total < c.quorum { 0u32 } else { participation_bps_spec(total as i128, c.quorum) };
                &&& r.transfers@ == bond_moves
                &&& (final(self).quorum_ema_bps, final(self).quorum_ema_count) == old(self).ema_after(sample)
                &&& final(self).config == old(self).config
                &&& final(self).address == old(self).address
                &&& final(self).votes@ == old(self).votes@
                &&& p.proposer != old(self).address && c.admin != old(self).address
                    ==> net_inflow(r.transfers@, c.token, old(self).address)
                        == bonds_held(final(self).proposals@) - bonds_held(old(self).proposals@)
                &&& if total < c.quorum || p.yes_votes <= p.no_votes {
                    &&& r.result == Err::<(), DaoError>(
                        if total < c.quorum { DaoError::QuorumNotMet } else { DaoError::ProposalRejected },
                    )
                    &&& !r.dispatch_action
                    &&& final(self).proposals@ == (if p.bond_amount > 0 {
                        old(self).proposals@.update(proposal_id as int, Proposal { bond_amount: 0, ..p })
                    } else {
                        old(self).proposals@
                    })
                } else {
                    &&& r.result == Ok::<(), DaoError>(())
                    &&& r.dispatch_action == p.has_action()
                    &&& final(self).proposals@ == old(self).proposals@.update(
                        proposal_id as int,
                        Proposal { state: ProposalState::Executed, ..p },
                    )
                }
            },
    {
        let c = match self.config {
            Some(c) => c,
            None => return Execution { result: Err(DaoError::NotInitialized), transfers: Vec::new(), dispatch_action: false },
        };
        if proposal_id as usize >= self.proposals.len() {
            return Execution { result: Err(DaoError::ProposalNotFound), transfers: Vec::new(), dispatch_action: false };
        }
        let idx = proposal_id as usize;
        if self.proposals[idx].state != ProposalState::Active {
            return Execution { result: Err(DaoError::InvalidState), transfers: Vec::new(), dispatch_action: false };
        }
        if ledger <= self.proposals[idx].deadline {
            return Execution { result: Err(DaoError::DeadlineNotReached), transfers: Vec::new(), dispatch_action: false };
        }
        let yes = self.proposals[idx].yes_votes;
        let no = self.proposals[idx].no_votes;
        let bond = self.proposals[idx].bond_amount;
        let proposer = self.proposals[idx].proposer;
        let total_votes = yes + no;
        let mut transfers: Vec<Transfer> = Vec::new();
        if total_votes < c.quorum || yes <= no {
            let sample = if total_votes < c.quorum { 0 } else { Self::participation_bps(total_votes, c.quorum) };
            if bond > 0 {
                transfers.push(Transfer { token: c.token, from: self.address, to: c.admin, amount: bond });
                let ghost before = *self;
                let ghost old_proposals = self.proposals@;
                let mut slashed = self.proposals.remove(idx);
                slashed.bond_amount = 0;
                self.proposals.insert(idx, slashed);
                assert(self.proposals@ =~= old_proposals.update(idx as int, self.proposals@[idx as int]));
                proof {
                    lemma_replace_keeps_wf(before, *self, idx as int);
                    lemma_bonds_held_update(old_proposals, idx as int, self.proposals@[idx as int]);
                    lemma_net_inflow_single(transfers@[0], c.token, self.address);
                    assert(transfers@ =~= seq![transfers@[0]]);
                }
            }
            self.update_quorum_ema(sample);
            let error = if total_votes < c.quorum { DaoError::QuorumNotMet } else { DaoError::ProposalRejected };
            return Execution { result: Err(error), transfers, dispatch_action: false };
        }
        let ghost before = *self;
        let ghost old_proposals = self.proposals@;
        let mut p = self.proposals.remove(idx);
        p.state = ProposalState::Executed;
        let dispatch_action = p.action_target.is_some() && p.action_function.is_some() && p.action_args.is_some();
        self.proposals.insert(idx, p);
        assert(self.proposals@ =~= old_proposals.update(idx as int, self.proposals@[idx as int]));
        if bond > 0 {
            transfers.push(Transfer { token: c.token, from: self.address, to: proposer, amount: bond });
        }
        proof {
            lemma_replace_keeps_wf(before, *self, idx as int);
            lemma_bonds_held_update(old_proposals, idx as int, self.proposals@[idx as int]);
            if bond > 0 {
                lemma_net_inflow_single(transfers@[0], c.token, self.address);
                assert(transfers@ =~= seq![transfers@[0]]);
            }
        }
        self.update_quorum_ema(Self::participation_bps(total_votes, c.quorum));
        Execution { result: Ok(()), transfers, dispatch_action }
    }

    /// The error `cancel_proposal` returns, if any.
    pub open spec fn cancel_error(&self, id: u32) -> Option<DaoError> {
        if !self.initialized() {
            Some(DaoError::NotInitialized)
        } else if id >= self.proposals.len() {
            Some(DaoError::ProposalNotFound)
        } else if self.proposals@[id as int].state != ProposalState::Active {
            Some(DaoError::InvalidState)
        } else {
            None
        }
    }

    /// Cancel an active proposal (admin only); its bond, if any, is slashed to the admin.
    pub fn cancel_proposal(&mut self, proposal_id: u32) -> (r: Result<Vec<Transfer>, DaoError>)
        requires
            old(self).wf(),
        ensures
            final(self).wf(),
            r is Err <==> old(self).cancel_error(proposal_id) is Some,
            r matches Err(e) ==> Some(e) == old(self).cancel_error(proposal_id) && *final(self) == *old(self),
            r matches Ok(ts) ==> {
                let p = old(self).proposals@[proposal_id as int];
                &&& final(self).proposals@ == old(self).proposals@.update(
                    proposal_id as int,
                    Proposal { state: ProposalState::Cancelled, ..p },
                )
                &&& ts@ == (if p.bond_amount > 0 {
                    seq![old(self).slash_transfer(p)]
                } else {
                    Seq::<Transfer>::empty()
                })
                &&& final(self).config == old(self).config
                &&& final(self).address == old(self).address
                &&& final(self).quorum_ema_bps == old(self).quorum_ema_bps
                &&& final(self).quorum_ema_count == old(self).quorum_ema_count
                &&& final(self).votes@ == old(self).votes@
                &&& old(self).cfg().admin != old(self).address ==> net_inflow(ts@, old(self).cfg().token, old(self).address)
                    == bonds_held(final(self).proposals@) - bonds_held(old(self).proposals@)
            },
    {
        let c = match self.config {
            Some(c) => c,
            None => return Err(DaoError::NotInitialized),
        };
        if proposal_id as usize >= self.proposals.len() {
            return Err(DaoError::ProposalNotFound);
        }
        let idx = proposal_id as usize;
        if self.proposals[idx].state != ProposalState::Active {
            return Err(DaoError::InvalidState);
        }
        let ghost before = *self;
        let ghost old_proposals = self.proposals@;
        let mut p = self.proposals.remove(idx);
        p.state = ProposalState::Cancelled;
        let bond = p.bond_amount;
        self.proposals.insert(idx, p);
        assert(self.proposals@ =~= old_proposals.update(idx as int, self.proposals@[idx as int]));
        let mut transfers: Vec<Transfer> = Vec::new();
        if bond > 0 {
            transfers.push(Transfer { token: c.token, from: self.address, to: c.admin, amount: bond });
        }
        proof {
            lemma_bonds_held_update(old_proposals, idx as int, self.proposals@[idx as int]);
            if bond > 0 {
                lemma_net_inflow_single(transfers@[0], c.token, self.address);
                assert(transfers@ =~= seq![transfers@[0]]);
            }
        }
        proof {
            lemma_replace_keeps_wf(before, *self, idx as int);
        }
        Ok(transfers)
    }

    /// Return a proposal by id.
    pub fn get_proposal(&self, proposal_id: u32) -> (r: Result<&Proposal, DaoError>)
        ensures
            proposal_id < self.proposals.len() ==> r == Ok::<&Proposal, DaoError>(&self.proposals@[proposal_id as int]),
            proposal_id >= self.proposals.len() ==> r == Err::<&Proposal, DaoError>(DaoError::ProposalNotFound),
    {
        if (proposal_id as usize) < self.proposals.len() {
            Ok(&self.proposals[proposal_id as usize])
        } else {
            Err(DaoError::ProposalNotFound)
        }
    }

    /// Return the total number of proposals created.
    pub fn proposal_count(&self) -> (r: u32)
        requires
            self.wf(),
        ensures
            r == self.proposals.len(),
    {
        self.proposals.len() as u32
    }

    /// Return the current adaptive quorum average in basis points (0 when disabled).
    pub fn current_quorum_bps(&self) -> (r: u32)
        ensures
            r == self.quorum_ema_bps,
    {
        self.quorum_ema_bps
    }
}

} // verus!

verus! {

/// Law: a voter votes at most once per proposal. Once a successful vote has
/// recorded `voter` on proposal `id` (the vote table of `after` is that of
/// `before` with the pair inserted), every later vote by the same voter on
/// the same proposal is refused.
pub proof fn lemma_vote_at_most_once(
    before: DaoContract,
    after: DaoContract,
    voter: Address,
    id: u32,
    weight: i128,
    later_weight: i128,
    later_ledger: u32,
)
    requires
        after.votes@ == before.votes@.insert(pair_key(id as u64, voter), weight),
    ensures
        after.has_voted(id, voter),
        after.vote_error(voter, id, later_weight, later_ledger) is Some,
{
}

/// Law: the tally of a proposal is exactly what was voted on it. For any
/// well-formed DAO, a proposal's yes and no votes together are the sum of
/// the weights of the votes recorded on it, and every recorded vote belongs
/// to an existing proposal.
pub proof fn lemma_tally_is_sum_of_weights(dao: DaoContract, id: u32)
    requires
        dao.wf(),
        id < dao.proposals.len(),
    ensures
        dao.proposals@[id as int].yes_votes + dao.proposals@[id as int].no_votes == map_sum(weights_on(dao.votes@, id)),
        forall|k: u128| #[trigger] dao.votes@.contains_key(k) ==> (k >> 64u128) < dao.proposals.len(),
{
    assert(dao.proposals@[id as int].yes_votes + dao.proposals@[id as int].no_votes
        == map_sum(weights_on(dao.votes@, (id as int) as u32)));
}

/// Law: the votes on a proposal never exceed the token supply recorded when
/// it was created (once any vote has been counted).
pub proof fn lemma_votes_within_recorded_supply(dao: DaoContract, id: u32)
    requires
        dao.wf(),
        id < dao.proposals.len(),
    ensures
        ({
            let p = dao.proposals@[id as int];
            p.yes_votes + p.no_votes > 0 ==> p.yes_votes + p.no_votes <= p.total_supply_at_creation
        }),
{
    assert(dao.proposals@[id as int].id == id);
}

/// Law: with adaptive quorum on (bounds not both zero, `min <= max`), one
/// participation sample moves the average to
/// `clamp((old * (window - 1) + 2 * sample) / (window + 1), min, max)` in
/// saturating `u32` arithmetic, so the average stays within `[min, max]`.
pub proof fn lemma_quorum_ema_update(dao: DaoContract, sample_bps: u32)
    requires
        dao.wf(),
        dao.initialized(),
        !(dao.cfg().min_quorum_bps == 0 && dao.cfg().max_quorum_bps == 0),
        dao.cfg().min_quorum_bps <= dao.cfg().max_quorum_bps,
    ensures
        ({
            let c = dao.cfg();
            let raw = sat_add_u32(
                sat_mul_u32(dao.quorum_ema_bps, sat_sub_u32(c.quorum_ema_window, 1)),
                sat_mul_u32(sample_bps, 2),
            ) / sat_add_u32(c.quorum_ema_window, 1);
            let (new_ema, new_count) = dao.ema_after(sample_bps);
            &&& new_ema == (if raw < c.min_quorum_bps {
                c.min_quorum_bps
            } else if raw > c.max_quorum_bps {
                c.max_quorum_bps
            } else {
                raw
            })
            &&& new_count == sat_add_u32(dao.quorum_ema_count, 1)
            &&& c.min_quorum_bps <= new_ema <= c.max_quorum_bps
        }),
{
    let c = dao.cfg();
    lemma_ema_step_within_band(dao.quorum_ema_bps, sample_bps, c.quorum_ema_window, c.min_quorum_bps, c.max_quorum_bps);
}

} // verus!
