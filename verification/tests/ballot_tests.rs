use soroban_templates::ballot::{BallotContract, BallotError};

const ADMIN: u64 = 1;
const START_LEDGER: u32 = 10;
const VOTING_START: u32 = 20;
const VOTING_END: u32 = 100;

/// A ballot and the current ledger sequence.
struct Env {
    b: BallotContract,
    seq: u32,
}

fn ok<T>(r: Result<T, BallotError>) -> T {
    match r {
        Ok(v) => v,
        Err(e) => panic!("Error(Contract, #{})", e.code()),
    }
}

impl Env {
    fn register(&mut self, voter: u64) {
        ok(self.b.register_voter(voter));
    }
    fn vote(&mut self, voter: u64, choice: u32) -> Result<(), BallotError> {
        self.b.vote(voter, choice, self.seq)
    }
    fn ranked(&mut self, voter: u64, prefs: Vec<u32>) -> Result<(), BallotError> {
        self.b.vote_ranked(voter, prefs, self.seq)
    }
}

fn choices(names: &[&str]) -> Vec<String> {
    names.iter().map(|s| s.to_string()).collect()
}

/// Two-choice ballot: choices = ["no", "yes"].
fn setup() -> Env {
    let mut b = BallotContract::new();
    ok(b.initialize(ADMIN, VOTING_START, VOTING_END, choices(&["no", "yes"])));
    Env { b, seq: START_LEDGER }
}

#[test]
fn test_ballot_lifecycle() {
    let mut env = setup();
    env.register(2);
    env.register(3);
    env.seq = VOTING_START;
    ok(env.vote(2, 1));
    ok(env.vote(3, 0));
    assert_eq!(env.b.get_yes_votes(), 1);
    assert_eq!(env.b.get_no_votes(), 1);
    env.seq = VOTING_END + 1;
    let (yes, no) = ok(env.b.tally());
    assert_eq!(yes, 1);
    assert_eq!(no, 1);
}

#[test]
#[should_panic(expected = "Error(Contract, #5)")]
fn test_double_vote_prevention() {
    let mut env = setup();
    env.register(2);
    env.seq = VOTING_START;
    ok(env.vote(2, 1));
    ok(env.vote(2, 1));
}

#[test]
#[should_panic(expected = "Error(Contract, #4)")]
fn test_unregistered_voter_rejected() {
    let mut env = setup();
    env.seq = VOTING_START;
    ok(env.vote(9, 1));
}

#[test]
fn test_invalid_choice_rejected() {
    let mut env = setup();
    env.register(2);
    env.seq = VOTING_START;
    assert!(env.vote(2, 2).is_err());
}

#[test]
fn test_double_initialize_rejected() {
    let mut env = setup();
    assert!(env.b.initialize(ADMIN, VOTING_START, VOTING_END, choices(&["no", "yes"])).is_err());
}

#[test]
fn test_register_voter_extends_persistent_ttl() {
    let mut b = BallotContract::new();
    ok(b.initialize(ADMIN, VOTING_START, 100_000, choices(&["no", "yes"])));
    let mut env = Env { b, seq: START_LEDGER };
    env.register(2);
    env.seq = VOTING_START + 10_000;
    assert!(env.vote(2, 1).is_ok());
}

#[test]
fn test_vote_extends_persistent_ttl() {
    let mut env = setup();
    env.register(2);
    env.seq = VOTING_START;
    ok(env.vote(2, 1));
    env.seq = VOTING_START + 10_000;
    assert!(env.vote(2, 1).is_err(), "second vote should be rejected even after ledger advance");
}

#[test]
fn test_tally_closes_voting() {
    let mut env = setup();
    env.register(2);
    env.seq = VOTING_START;
    ok(env.vote(2, 1));
    env.seq = VOTING_END + 1;
    ok(env.b.tally());
    env.register(3);
    env.seq = VOTING_END + 2;
    assert!(env.vote(3, 0).is_err());
}

#[test]
#[should_panic(expected = "Error(Contract, #10)")]
fn test_vote_before_window_rejected() {
    let mut env = setup();
    env.register(2);
    ok(env.vote(2, 1));
}

#[test]
#[should_panic(expected = "Error(Contract, #7)")]
fn test_vote_after_window_rejected() {
    let mut env = setup();
    env.register(2);
    env.seq = VOTING_END + 1;
    ok(env.vote(2, 1));
}

#[test]
fn test_vote_at_window_start_accepted() {
    let mut env = setup();
    env.register(2);
    env.seq = VOTING_START;
    ok(env.vote(2, 1));
    assert_eq!(env.b.get_yes_votes(), 1);
}

#[test]
fn test_non_admin_can_tally_after_deadline() {
    let mut env = setup();
    env.register(2);
    env.seq = VOTING_START;
    ok(env.vote(2, 1));
    env.seq = VOTING_END + 1;
    let (yes, no) = ok(env.b.tally_all(env.seq));
    assert_eq!(yes, 1);
    assert_eq!(no, 0);
}

#[test]
fn test_tally_all_before_deadline_rejected() {
    let mut env = setup();
    env.register(2);
    env.seq = VOTING_START;
    ok(env.vote(2, 1));
    assert!(env.b.tally_all(env.seq).is_err());
}

#[test]
fn test_get_tally_is_permissionless_read_only() {
    let mut env = setup();
    env.register(2);
    env.seq = VOTING_START;
    ok(env.vote(2, 1));
    env.seq = VOTING_END + 1;
    let (yes, no) = env.b.get_tally();
    assert_eq!(yes, 1);
    assert_eq!(no, 0);
    assert!(!env.b.closed);
}

// ── further cases ────────────────────────────────────────────────────────────

#[test]
fn error_codes() {
    assert_eq!(BallotError::AlreadyInitialized.code(), 1);
    assert_eq!(BallotError::NotRegistered.code(), 4);
    assert_eq!(BallotError::AlreadyVoted.code(), 5);
    assert_eq!(BallotError::VotingClosed.code(), 7);
    assert_eq!(BallotError::VotingNotStarted.code(), 10);
}

#[test]
fn uninitialized_ballot_refuses() {
    let mut b = BallotContract::new();
    assert_eq!(b.register_voter(2), Err(BallotError::NotInitialized));
    assert_eq!(b.vote(2, 0, 50), Err(BallotError::NotInitialized));
    assert_eq!(b.tally(), Err(BallotError::NotInitialized));
    assert_eq!(b.tally_all(500), Err(BallotError::NotInitialized));
}

#[test]
fn ranked_ballot_checks() {
    let mut b = BallotContract::new();
    ok(b.initialize(ADMIN, VOTING_START, VOTING_END, choices(&["a", "b", "c"])));
    let mut env = Env { b, seq: VOTING_START };
    env.register(2);
    assert_eq!(env.ranked(2, vec![]), Err(BallotError::EmptyBallot));
    assert_eq!(env.ranked(2, vec![0, 3]), Err(BallotError::InvalidChoice));
    assert_eq!(env.ranked(2, vec![1, 1, 7]), Err(BallotError::DuplicateChoice));
    assert_eq!(env.ranked(3, vec![1]), Err(BallotError::NotRegistered));
    ok(env.ranked(2, vec![2, 0, 1]));
    assert_eq!(env.b.ranked_vote_count(), 1);
    assert_eq!(env.b.total_votes, 1);
    assert_eq!(env.ranked(2, vec![1]), Err(BallotError::AlreadyVoted));
}

fn ranked_ballot(n: usize, ballots: &[Vec<u32>]) -> BallotContract {
    let names: Vec<String> = (0..n).map(|i| format!("c{}", i)).collect();
    let mut b = BallotContract::new();
    ok(b.initialize(ADMIN, VOTING_START, VOTING_END, names));
    for (i, prefs) in ballots.iter().enumerate() {
        let voter = 100 + i as u64;
        ok(b.register_voter(voter));
        ok(b.vote_ranked(voter, prefs.clone(), VOTING_START));
    }
    b
}

#[test]
fn tally_ranked_without_ballots_is_empty() {
    let b = ranked_ballot(3, &[]);
    assert!(b.tally_ranked().is_empty());
}

#[test]
fn tally_ranked_first_round_majority() {
    let b = ranked_ballot(3, &[vec![1, 0], vec![1], vec![0, 2]]);
    let rounds = b.tally_ranked();
    assert_eq!(rounds.len(), 1);
    assert_eq!(rounds[0].tallies, vec![1, 2, 0]);
    assert_eq!(rounds[0].winner, Some(1));
    assert_eq!(rounds[0].eliminated, None);
}

#[test]
fn tally_ranked_runoff_transfers_votes() {
    // a: 2 first preferences, b: 2, c: 1 (second choice b).
    let b = ranked_ballot(3, &[vec![0], vec![0], vec![1], vec![1], vec![2, 1]]);
    let rounds = b.tally_ranked();
    assert_eq!(rounds.len(), 2);
    assert_eq!(rounds[0].tallies, vec![2, 2, 1]);
    assert_eq!(rounds[0].eliminated, Some(2));
    assert_eq!(rounds[0].winner, None);
    assert_eq!(rounds[1].tallies, vec![2, 3, 0]);
    assert_eq!(rounds[1].winner, Some(1));
}

#[test]
fn tally_ranked_ties_eliminate_highest_index() {
    let b = ranked_ballot(2, &[vec![0], vec![1]]);
    let rounds = b.tally_ranked();
    assert_eq!(rounds.len(), 2);
    assert_eq!(rounds[0].tallies, vec![1, 1]);
    assert_eq!(rounds[0].eliminated, Some(1));
    assert_eq!(rounds[1].tallies, vec![1, 0]);
    assert_eq!(rounds[1].winner, Some(0));
}

#[test]
fn runoff_ends_with_winner_when_ballots_run_out() {
    // Ballots that rank a single eliminated choice drop out of later rounds;
    // the count still ends with a majority winner within one round per choice.
    let b = ranked_ballot(4, &[vec![3], vec![2], vec![1, 0], vec![0], vec![0, 1], vec![1, 0]]);
    let rounds = b.tally_ranked();
    assert!(!rounds.is_empty() && rounds.len() <= 4);
    for r in &rounds[..rounds.len() - 1] {
        assert!(r.eliminated.is_some() && r.winner.is_none());
    }
    let last = rounds.last().unwrap();
    let w = last.winner.unwrap() as usize;
    let active: u32 = last.tallies.iter().sum();
    assert!(2 * last.tallies[w] > active);
    assert_eq!(rounds[0].tallies, vec![2, 2, 1, 1]);
    assert_eq!(rounds[0].eliminated, Some(3));
    assert_eq!(rounds[1].eliminated, Some(2));
    assert_eq!(rounds[2].tallies, vec![2, 2, 0, 0]);
    assert_eq!(rounds[2].eliminated, Some(1));
    assert_eq!(rounds[3].tallies, vec![4, 0, 0, 0]);
    assert_eq!(last.winner, Some(0));
}
