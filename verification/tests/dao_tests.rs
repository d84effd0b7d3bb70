use std::collections::HashMap;

use soroban_templates::common::Transfer;
use soroban_templates::dao::{DaoContract, DaoError, ProposalState};

const DAO: u64 = 1000;
const ADMIN: u64 = 1;
const TOKEN: u64 = 2;

/// Token balances, moved by the transfers a contract call asks for.
struct Ledger {
    balances: HashMap<(u64, u64), i128>,
}

impl Ledger {
    fn new() -> Self {
        Ledger { balances: HashMap::new() }
    }

    fn mint(&mut self, token: u64, to: u64, amount: i128) {
        *self.balances.entry((token, to)).or_insert(0) += amount;
    }

    fn supply(&self, token: u64) -> i128 {
        self.balances.iter().filter(|((t, _), _)| *t == token).map(|(_, b)| *b).sum()
    }

    fn balance(&self, token: u64, who: u64) -> i128 {
        *self.balances.get(&(token, who)).unwrap_or(&0)
    }

    fn apply(&mut self, transfers: &[Transfer]) {
        for t in transfers {
            assert!(t.amount >= 0, "negative transfer");
            assert!(self.balance(t.token, t.from) >= t.amount, "insufficient balance");
            *self.balances.entry((t.token, t.from)).or_insert(0) -= t.amount;
            *self.balances.entry((t.token, t.to)).or_insert(0) += t.amount;
        }
    }
}

/// A DAO and the ledger it runs on, with a current ledger sequence.
struct Env {
    dao: DaoContract,
    ledger: Ledger,
    sequence: u32,
}

fn ok<T>(r: Result<T, DaoError>) -> T {
    match r {
        Ok(v) => v,
        Err(e) => panic!("Error(Contract, #{})", e.code()),
    }
}

impl Env {
    fn create(&mut self, proposer: u64, title: &str) -> Result<u32, DaoError> {
        let balance = self.ledger.balance(TOKEN, proposer);
        let (id, transfers) = self.dao.create_proposal(
            proposer,
            title.to_string(),
            "D".to_string(),
            None,
            None,
            None,
            balance,
            self.ledger.supply(TOKEN),
            self.sequence,
        )?;
        self.ledger.apply(&transfers);
        Ok(id)
    }

    fn vote(&mut self, voter: u64, id: u32, support: bool) -> Result<(), DaoError> {
        let weight = self.ledger.balance(TOKEN, voter);
        self.dao.vote(voter, id, support, weight, self.sequence)
    }

    fn execute(&mut self, id: u32) -> Result<(), DaoError> {
        let outcome = self.dao.execute_proposal(id, self.sequence);
        self.ledger.apply(&outcome.transfers);
        outcome.result
    }

    fn cancel(&mut self, id: u32) -> Result<(), DaoError> {
        let transfers = self.dao.cancel_proposal(id)?;
        self.ledger.apply(&transfers);
        Ok(())
    }

    fn pass_deadline(&mut self, id: u32) {
        self.sequence = self.dao.get_proposal(id).unwrap().deadline + 1;
    }
}

fn setup_with(bond: i128, min_bps: u32, max_bps: u32) -> Env {
    let mut dao = DaoContract::new(DAO);
    ok(dao.initialize(ADMIN, TOKEN, 100, 500, bond, min_bps, max_bps));
    Env { dao, ledger: Ledger::new(), sequence: 0 }
}

/// Standard setup: voting_period=100, quorum=500, no bond, adaptive quorum disabled.
fn setup() -> Env {
    setup_with(0, 0, 0)
}

fn render_error_code_snapshot() -> String {
    format!(
        "\
DaoError::NotAuthorized = {}\n\
DaoError::AlreadyInitialized = {}\n\
DaoError::NotInitialized = {}\n\
DaoError::ProposalNotFound = {}\n\
DaoError::InvalidState = {}\n\
DaoError::DeadlineNotReached = {}\n\
DaoError::AlreadyVoted = {}\n\
DaoError::QuorumNotMet = {}\n\
DaoError::ProposalRejected = {}\n\
DaoError::InsufficientVotingPower = {}\n\
DaoError::InsufficientBondBalance = {}\n\
DaoError::ActionFailed = {}\n",
        DaoError::NotAuthorized.code(),
        DaoError::AlreadyInitialized.code(),
        DaoError::NotInitialized.code(),
        DaoError::ProposalNotFound.code(),
        DaoError::InvalidState.code(),
        DaoError::DeadlineNotReached.code(),
        DaoError::AlreadyVoted.code(),
        DaoError::QuorumNotMet.code(),
        DaoError::ProposalRejected.code(),
        DaoError::InsufficientVotingPower.code(),
        DaoError::InsufficientBondBalance.code(),
        DaoError::ActionFailed.code(),
    )
}

#[test]
fn dao_error_codes_match_snapshot() {
    let expected = "\
DaoError::NotAuthorized = 1\n\
DaoError::AlreadyInitialized = 2\n\
DaoError::NotInitialized = 3\n\
DaoError::ProposalNotFound = 4\n\
DaoError::InvalidState = 5\n\
DaoError::DeadlineNotReached = 6\n\
DaoError::AlreadyVoted = 7\n\
DaoError::QuorumNotMet = 8\n\
DaoError::ProposalRejected = 9\n\
DaoError::InsufficientVotingPower = 10\n\
DaoError::InsufficientBondBalance = 11\n\
DaoError::ActionFailed = 12\n";
    assert_eq!(render_error_code_snapshot(), expected);
}

#[test]
fn test_dao_error_messages() {
    assert_eq!(DaoError::NotAuthorized.message(), "not authorized");
    assert_eq!(DaoError::QuorumNotMet.message(), "quorum not met");
    assert_eq!(DaoError::InsufficientBondBalance.message(), "insufficient balance for proposal bond");
    assert_eq!(ProposalState::Active.as_str(), "active");
    assert_eq!(ProposalState::Executed.as_str(), "executed");
    assert_eq!(ProposalState::Cancelled.as_str(), "cancelled");
}

#[test]
fn test_initialize() {
    let env = setup();
    assert_eq!(env.dao.proposal_count(), 0);
}

#[test]
#[should_panic(expected = "Error(Contract, #2)")]
fn test_initialize_twice_fails() {
    let mut env = setup();
    ok(env.dao.initialize(ADMIN, TOKEN, 100, 500, 0, 0, 0));
}

#[test]
fn test_create_proposal() {
    let mut env = setup();
    env.ledger.mint(TOKEN, ADMIN, 1_000);
    let id = ok(env.create(ADMIN, "Upgrade Protocol"));
    assert_eq!(id, 0);
    assert_eq!(env.dao.proposal_count(), 1);

    let proposal = env.dao.get_proposal(0).unwrap();
    assert_eq!(proposal.state, ProposalState::Active);
    assert_eq!(proposal.yes_votes, 0);
    assert_eq!(proposal.no_votes, 0);
    assert_eq!(proposal.bond_amount, 0);
    assert_eq!(proposal.title, "Upgrade Protocol");
    assert_eq!(proposal.deadline, 100);
}

#[test]
#[should_panic(expected = "Error(Contract, #10)")]
fn test_create_proposal_no_tokens_fails() {
    let mut env = setup();
    ok(env.create(7, "Bad Proposal"));
}

#[test]
fn test_create_proposal_uninitialized_fails() {
    let mut dao = DaoContract::new(DAO);
    let r = dao.create_proposal(ADMIN, "T".to_string(), "D".to_string(), None, None, None, 100, 100, 0);
    assert_eq!(r.err(), Some(DaoError::NotInitialized));
    assert_eq!(dao.get_proposal(0).err(), Some(DaoError::ProposalNotFound));
}

#[test]
fn test_vote_yes() {
    let mut env = setup();
    env.ledger.mint(TOKEN, ADMIN, 1_000);
    let id = ok(env.create(ADMIN, "P"));
    let voter = 10;
    env.ledger.mint(TOKEN, voter, 600);
    ok(env.vote(voter, id, true));
    let p = env.dao.get_proposal(id).unwrap();
    assert_eq!(p.yes_votes, 600);
    assert_eq!(p.no_votes, 0);
}

#[test]
fn test_vote_no() {
    let mut env = setup();
    env.ledger.mint(TOKEN, ADMIN, 1_000);
    let id = ok(env.create(ADMIN, "P"));
    let voter = 10;
    env.ledger.mint(TOKEN, voter, 300);
    ok(env.vote(voter, id, false));
    let p = env.dao.get_proposal(id).unwrap();
    assert_eq!(p.yes_votes, 0);
    assert_eq!(p.no_votes, 300);
}

#[test]
#[should_panic(expected = "Error(Contract, #7)")]
fn test_vote_twice_fails() {
    let mut env = setup();
    env.ledger.mint(TOKEN, ADMIN, 1_000);
    let id = ok(env.create(ADMIN, "P"));
    let voter = 10;
    env.ledger.mint(TOKEN, voter, 100);
    ok(env.vote(voter, id, true));
    ok(env.vote(voter, id, true));
}

#[test]
fn test_vote_errors() {
    let mut env = setup();
    env.ledger.mint(TOKEN, ADMIN, 1_000);
    let id = ok(env.create(ADMIN, "P"));
    assert_eq!(env.vote(11, id, true), Err(DaoError::InsufficientVotingPower));
    assert_eq!(env.vote(ADMIN, 9, true), Err(DaoError::ProposalNotFound));
    env.pass_deadline(id);
    assert_eq!(env.vote(ADMIN, id, true), Err(DaoError::DeadlineNotReached));
}

#[test]
fn test_execute_proposal_passes() {
    let mut env = setup();
    env.ledger.mint(TOKEN, ADMIN, 1_000);
    let id = ok(env.create(ADMIN, "P"));
    let voter = 10;
    env.ledger.mint(TOKEN, voter, 600);
    ok(env.vote(voter, id, true));
    env.pass_deadline(id);
    ok(env.execute(id));
    assert_eq!(env.dao.get_proposal(id).unwrap().state, ProposalState::Executed);
}

#[test]
#[should_panic(expected = "Error(Contract, #6)")]
fn test_execute_before_deadline_fails() {
    let mut env = setup();
    env.ledger.mint(TOKEN, ADMIN, 1_000);
    let id = ok(env.create(ADMIN, "P"));
    let voter = 10;
    env.ledger.mint(TOKEN, voter, 600);
    ok(env.vote(voter, id, true));
    ok(env.execute(id));
}

#[test]
#[should_panic(expected = "Error(Contract, #8)")]
fn test_execute_quorum_not_met_fails() {
    let mut env = setup();
    env.ledger.mint(TOKEN, ADMIN, 1_000);
    let id = ok(env.create(ADMIN, "P"));
    let voter = 10;
    env.ledger.mint(TOKEN, voter, 100);
    ok(env.vote(voter, id, true));
    env.pass_deadline(id);
    ok(env.execute(id));
}

#[test]
fn test_execute_rejected_by_majority() {
    let mut env = setup();
    env.ledger.mint(TOKEN, ADMIN, 1_000);
    let id = ok(env.create(ADMIN, "P"));
    env.ledger.mint(TOKEN, 10, 300);
    env.ledger.mint(TOKEN, 11, 300);
    ok(env.vote(10, id, true));
    ok(env.vote(11, id, false));
    env.pass_deadline(id);
    assert_eq!(env.execute(id), Err(DaoError::ProposalRejected));
    assert_eq!(env.dao.get_proposal(id).unwrap().state, ProposalState::Active);
}

#[test]
fn test_cancel_proposal() {
    let mut env = setup();
    env.ledger.mint(TOKEN, ADMIN, 1_000);
    let id = ok(env.create(ADMIN, "P"));
    ok(env.cancel(id));
    assert_eq!(env.dao.get_proposal(id).unwrap().state, ProposalState::Cancelled);
}

#[test]
#[should_panic(expected = "Error(Contract, #5)")]
fn test_cancel_already_executed_fails() {
    let mut env = setup();
    env.ledger.mint(TOKEN, ADMIN, 1_000);
    let id = ok(env.create(ADMIN, "P"));
    let voter = 10;
    env.ledger.mint(TOKEN, voter, 600);
    ok(env.vote(voter, id, true));
    env.pass_deadline(id);
    ok(env.execute(id));
    ok(env.cancel(id));
}

#[test]
fn test_bond_escrowed_on_create() {
    let bond = 200;
    let mut env = setup_with(bond, 0, 0);
    env.ledger.mint(TOKEN, ADMIN, 1_000);
    let before_dao = env.ledger.balance(TOKEN, DAO);
    ok(env.create(ADMIN, "P"));
    let after_dao = env.ledger.balance(TOKEN, DAO);
    assert_eq!(after_dao - before_dao, bond, "bond should be held by DAO");
    assert_eq!(env.dao.get_proposal(0).unwrap().bond_amount, bond);
}

#[test]
fn test_bond_refunded_on_execution() {
    let bond = 200;
    let mut env = setup_with(bond, 0, 0);
    env.ledger.mint(TOKEN, ADMIN, 2_000);
    let id = ok(env.create(ADMIN, "P"));
    let voter = 10;
    env.ledger.mint(TOKEN, voter, 600);
    ok(env.vote(voter, id, true));
    env.pass_deadline(id);
    let before = env.ledger.balance(TOKEN, ADMIN);
    ok(env.execute(id));
    let after = env.ledger.balance(TOKEN, ADMIN);
    assert_eq!(after - before, bond, "bond should be refunded to proposer");
}

#[test]
fn test_bond_slashed_on_quorum_failure() {
    let bond = 200;
    let mut env = setup_with(bond, 0, 0);
    env.ledger.mint(TOKEN, ADMIN, 2_000);
    let id = ok(env.create(ADMIN, "P"));
    let voter = 10;
    env.ledger.mint(TOKEN, voter, 100);
    ok(env.vote(voter, id, true));
    env.pass_deadline(id);
    let before_admin = env.ledger.balance(TOKEN, ADMIN);
    let result = env.execute(id);
    assert!(result.is_err(), "should fail with QuorumNotMet");
    let after_admin = env.ledger.balance(TOKEN, ADMIN);
    assert_eq!(after_admin - before_admin, bond, "bond should be slashed to admin treasury");
}

#[test]
fn test_bond_slashed_on_cancel() {
    let bond = 200;
    let mut env = setup_with(bond, 0, 0);
    let proposer = 20;
    env.ledger.mint(TOKEN, proposer, 1_000);
    let id = ok(env.create(proposer, "P"));
    assert_eq!(env.ledger.balance(TOKEN, DAO), 200);
    ok(env.cancel(id));
    assert_eq!(env.ledger.balance(TOKEN, DAO), 0);
    assert_eq!(env.ledger.balance(TOKEN, ADMIN), 200);
    assert_eq!(env.ledger.balance(TOKEN, proposer), 800);
}

#[test]
#[should_panic(expected = "Error(Contract, #11)")]
fn test_create_proposal_insufficient_bond_fails() {
    let mut env = setup_with(500, 0, 0);
    env.ledger.mint(TOKEN, ADMIN, 100);
    ok(env.create(ADMIN, "P"));
}

#[test]
fn test_create_proposal_with_action_payload_stored() {
    let mut env = setup();
    env.ledger.mint(TOKEN, ADMIN, 1_000);
    let target = 77;
    let function = "transfer".to_string();
    let args: Vec<u64> = Vec::new();
    let balance = env.ledger.balance(TOKEN, ADMIN);
    let (id, _) = ok(env.dao.create_proposal(
        ADMIN,
        "Fund transfer".to_string(),
        "Send tokens".to_string(),
        Some(target),
        Some(function.clone()),
        Some(args),
        balance,
        env.ledger.supply(TOKEN),
        0,
    ));
    let proposal = env.dao.get_proposal(id).unwrap();
    assert_eq!(proposal.action_target, Some(target));
    assert_eq!(proposal.action_function, Some(function));
    assert!(proposal.action_args.is_some());
}

#[test]
fn test_execute_dispatches_complete_action_only() {
    let mut env = setup();
    env.ledger.mint(TOKEN, ADMIN, 1_000);
    env.ledger.mint(TOKEN, 10, 600);
    let balance = env.ledger.balance(TOKEN, ADMIN);
    let (with_action, _) = ok(env.dao.create_proposal(
        ADMIN, "A".to_string(), "D".to_string(), Some(77), Some("f".to_string()), Some(vec![1, 2]), balance, env.ledger.supply(TOKEN), 0,
    ));
    let (partial, _) = ok(env.dao.create_proposal(
        ADMIN, "B".to_string(), "D".to_string(), Some(77), None, Some(vec![1]), balance, env.ledger.supply(TOKEN), 0,
    ));
    ok(env.vote(10, with_action, true));
    ok(env.vote(10, partial, true));
    env.sequence = 101;
    let first = env.dao.execute_proposal(with_action, env.sequence);
    assert_eq!(first.result, Ok(()));
    assert!(first.dispatch_action);
    let second = env.dao.execute_proposal(partial, env.sequence);
    assert_eq!(second.result, Ok(()));
    assert!(!second.dispatch_action);
}

#[test]
fn test_adaptive_quorum_updates_after_execution() {
    let mut env = setup_with(0, 1_000, 9_000);
    env.ledger.mint(TOKEN, ADMIN, 2_000);
    let initial_ema = env.dao.current_quorum_bps();
    let id = ok(env.create(ADMIN, "P"));
    let voter = 10;
    env.ledger.mint(TOKEN, voter, 600);
    ok(env.vote(voter, id, true));
    env.pass_deadline(id);
    ok(env.execute(id));
    let updated_ema = env.dao.current_quorum_bps();
    assert!(updated_ema >= 1_000, "ema below min");
    assert!(updated_ema <= 9_000, "ema above max");
    assert_ne!(updated_ema, initial_ema, "EMA should have changed");
    // (5000 * 9 + 10000 * 2) / 11 = 5909
    assert_eq!(initial_ema, 5_000);
    assert_eq!(updated_ema, 5_909);
    assert_eq!(env.dao.quorum_ema_count, 1);
}

#[test]
fn test_adaptive_quorum_disabled_when_bounds_zero() {
    let mut env = setup();
    env.ledger.mint(TOKEN, ADMIN, 2_000);
    let initial_ema = env.dao.current_quorum_bps();
    assert_eq!(initial_ema, 0, "EMA should start at 0 when disabled");
    let id = ok(env.create(ADMIN, "P"));
    let voter = 10;
    env.ledger.mint(TOKEN, voter, 600);
    ok(env.vote(voter, id, true));
    env.pass_deadline(id);
    ok(env.execute(id));
    assert_eq!(env.dao.current_quorum_bps(), 0, "EMA should remain 0 when adaptive quorum is disabled");
}

#[test]
fn test_adaptive_quorum_clamped_to_min() {
    let mut env = setup_with(0, 4_000, 6_000);
    env.ledger.mint(TOKEN, ADMIN, 2_000);
    for _ in 0..5u32 {
        let id = ok(env.create(ADMIN, "P"));
        env.pass_deadline(id);
        let _ = env.execute(id);
    }
    let ema = env.dao.current_quorum_bps();
    assert!(ema >= 4_000, "EMA must not go below min_quorum_bps");
    assert!(ema <= 6_000, "EMA must not exceed max_quorum_bps");
    assert_eq!(ema, 4_000);
}

#[test]
fn test_total_votes_invariant() {
    let mut env = setup();
    env.ledger.mint(TOKEN, ADMIN, 1_000);
    let id = ok(env.create(ADMIN, "P"));
    env.ledger.mint(TOKEN, 10, 300);
    env.ledger.mint(TOKEN, 11, 400);
    ok(env.vote(10, id, true));
    ok(env.vote(11, id, false));
    let p = env.dao.get_proposal(id).unwrap();
    assert_eq!(p.yes_votes + p.no_votes, 700);
}

#[test]
fn test_participation_bps() {
    assert_eq!(DaoContract::participation_bps(600, 500), 10_000);
    assert_eq!(DaoContract::participation_bps(250, 500), 5_000);
    assert_eq!(DaoContract::participation_bps(1, 3), 3_333);
    assert_eq!(DaoContract::participation_bps(123, 0), 10_000);
    assert_eq!(DaoContract::participation_bps(0, 500), 0);
}

#[test]
fn failed_execution_slashes_bond_only_once() {
    let bond = 200;
    let mut env = setup_with(bond, 0, 0);
    let first = 20;
    let second = 21;
    env.ledger.mint(TOKEN, first, 1_000);
    env.ledger.mint(TOKEN, second, 1_000);
    let a = ok(env.create(first, "A"));
    let _b = ok(env.create(second, "B"));
    assert_eq!(env.ledger.balance(TOKEN, DAO), 400);
    env.pass_deadline(a);
    assert_eq!(env.execute(a), Err(DaoError::QuorumNotMet));
    assert_eq!(env.ledger.balance(TOKEN, DAO), 200);
    assert_eq!(env.dao.get_proposal(a).unwrap().bond_amount, 0);
    // A second attempt finds nothing left to slash; the other bond stays escrowed.
    assert_eq!(env.execute(a), Err(DaoError::QuorumNotMet));
    assert_eq!(env.ledger.balance(TOKEN, DAO), 200);
    assert_eq!(env.ledger.balance(TOKEN, ADMIN), 200);
}

#[test]
fn prop_votes_never_exceed_snapshot_supply() {
    for amounts in [vec![1i128], vec![5, 5, 5], vec![200, 200, 200, 200, 200], vec![3, 9, 1, 7, 2]] {
        let mut env = setup_with(0, 0, 0);
        let proposer = 20;
        env.ledger.mint(TOKEN, proposer, 10);
        let id = ok(env.create(proposer, "Test"));
        let snapshot = env.dao.get_proposal(id).unwrap().total_supply_at_creation;
        assert_eq!(snapshot, 10);
        for (i, amount) in amounts.iter().enumerate() {
            let voter = 100 + i as u64;
            env.ledger.mint(TOKEN, voter, *amount);
            let _ = env.vote(voter, id, i % 2 == 0);
        }
        let p = env.dao.get_proposal(id).unwrap();
        assert!(p.yes_votes + p.no_votes <= snapshot);
    }
}

#[test]
fn vote_weight_capped_at_remaining_supply() {
    let mut env = setup_with(0, 0, 0);
    env.ledger.mint(TOKEN, 20, 10);
    let id = ok(env.create(20, "Test"));
    env.ledger.mint(TOKEN, 30, 7);
    env.ledger.mint(TOKEN, 31, 7);
    env.ledger.mint(TOKEN, 32, 7);
    ok(env.vote(30, id, true));
    ok(env.vote(31, id, false));
    assert_eq!(env.vote(32, id, true), Err(DaoError::InsufficientVotingPower));
    let p = env.dao.get_proposal(id).unwrap();
    assert_eq!((p.yes_votes, p.no_votes), (7, 3));
}
