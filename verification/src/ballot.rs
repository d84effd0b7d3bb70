//! Ballot: an admin configures an ordered list of choices and a voting
//! window and registers voters; registered voters cast one single-choice
//! vote (choice 0 = no, 1 = yes on a two-choice ballot) and may submit one
//! ranked-choice ballot while the window is open. The admin may close the
//! ballot at any time, anyone may close it once the window has passed, and
//! ranked ballots are counted by instant-runoff elimination.
use vstd::prelude::*;
use std::collections::HashSet;
use crate::common::Address;

verus! {

broadcast use vstd::std_specs::hash::group_hash_axioms;

/// Errors returned by [`BallotContract`].
#[derive(Clone, Copy, Debug, PartialEq, Eq, Structural)]
pub enum BallotError {
    AlreadyInitialized,
    NotInitialized,
    InvalidChoice,
    NotRegistered,
    AlreadyVoted,
    DuplicateChoice,
    VotingClosed,
    VotingStillOpen,
    EmptyBallot,
    VotingNotStarted,
}

impl BallotError {
    /// The numeric contract error code of this error.
    pub open spec fn spec_code(self) -> u32 {
        match self {
            BallotError::AlreadyInitialized => 1,
            BallotError::NotInitialized => 2,
            BallotError::InvalidChoice => 3,
            BallotError::NotRegistered => 4,
            BallotError::AlreadyVoted => 5,
            BallotError::DuplicateChoice => 6,
            BallotError::VotingClosed => 7,
            BallotError::VotingStillOpen => 8,
            BallotError::EmptyBallot => 9,
            BallotError::VotingNotStarted => 10,
        }
    }

    /// Returns the numeric contract error code of this error.
    pub fn code(&self) -> (r: u32)
        ensures
            r == self.spec_code(),
    {
        match self {
            BallotError::AlreadyInitialized => 1,
            BallotError::NotInitialized => 2,
            BallotError::InvalidChoice => 3,
            BallotError::NotRegistered => 4,
            BallotError::AlreadyVoted => 5,
            BallotError::DuplicateChoice => 6,
            BallotError::VotingClosed => 7,
            BallotError::VotingStillOpen => 8,
            BallotError::EmptyBallot => 9,
            BallotError::VotingNotStarted => 10,
        }
    }
}

/// A single instant-runoff elimination round result.
pub struct RoundResult {
    /// Per-choice tallies for this round, indexed by choice index.
    pub tallies: Vec<u32>,
    /// Choice eliminated at the end of this round, or `None` in the final round.
    pub eliminated: Option<u32>,
    /// Choice that reached a majority in this round, if any.
    pub winner: Option<u32>,
}

/// A ranked ballot: the voter and their preferences, most preferred first.
pub struct RankedBallot {
    pub voter: Address,
    pub preferences: Vec<u32>,
}

/// Ballot contract state.
pub struct BallotContract {
    pub admin: Option<Address>,
    /// Ordered choice labels.
    pub choices: Vec<String>,
    /// First ledger at which votes are accepted.
    pub voting_start: u32,
    /// Last ledger at which votes are accepted.
    pub voting_end: u32,
    /// Set once the ballot has been tallied; no vote is accepted afterwards.
    pub closed: bool,
    /// Votes cast, single-choice and ranked together.
    pub total_votes: u32,
    pub registered: HashSet<u64>,
    /// Voters who have cast their single-choice vote.
    pub voted: HashSet<u64>,
    /// Single-choice tally per choice index.
    pub choice_votes: Vec<u32>,
    /// Ranked ballots in the order they were submitted.
    pub ranked: Vec<RankedBallot>,
}

/// Every entry of `prefs` is a valid choice index and none repeats.
pub open spec fn valid_ranking(prefs: Seq<u32>, num_choices: int) -> bool {
    &&& forall|i: int| 0 <= i < prefs.len() ==> #[trigger] prefs[i] < num_choices
    &&& forall|i: int, j: int| 0 <= i < j < prefs.len() ==> prefs[i] != prefs[j]
}

/// The preferences of a list of ranked ballots.
pub open spec fn ballot_prefs(ballots: Seq<RankedBallot>) -> Seq<Seq<u32>> {
    ballots.map_values(|b: RankedBallot| b.preferences@)
}

/// The ballot's most preferred choice that is still in the race (`elim[c]`
/// marks choice `c` as eliminated), or `None` when all are eliminated.
pub open spec fn top_choice(prefs: Seq<u32>, elim: Seq<bool>) -> Option<u32>
    decreases prefs.len(),
{
    if prefs.len() == 0 {
        None
    } else if (prefs[0] as int) < elim.len() && !elim[prefs[0] as int] {
        Some(prefs[0])
    } else {
        top_choice(prefs.drop_first(), elim)
    }
}

/// Law: a ballot counts for its highest-ranked choice still in the race,
/// whatever that choice's rank. The counted choice `c` sits at some rank `k`,
/// is in range and not eliminated, and every choice ranked above it is out;
/// a ballot counts for no one only when every choice it ranks is out.
pub proof fn lemma_top_choice_is_first_in_race(prefs: Seq<u32>, elim: Seq<bool>)
    ensures
        top_choice(prefs, elim) matches Some(c) ==> exists|k: int| #![trigger prefs[k]]
            0 <= k < prefs.len() && prefs[k] == c && (c as int) < elim.len() && !elim[c as int]
                && forall|j: int| 0 <= j < k ==> !((prefs[j] as int) < elim.len() && !elim[prefs[j] as int]),
        top_choice(prefs, elim) is None ==> forall|k: int| 0 <= k < prefs.len()
            ==> !((#[trigger] prefs[k] as int) < elim.len() && !elim[prefs[k] as int]),
    decreases prefs.len(),
{
    if prefs.len() > 0 {
        let rest = prefs.drop_first();
        lemma_top_choice_is_first_in_race(rest, elim);
        if (prefs[0] as int) < elim.len() && !elim[prefs[0] as int] {
            assert(prefs[0] == prefs[0]);
        } else {
            if let Some(c) = top_choice(prefs, elim) {
                let k = choose|k: int| #![trigger rest[k]]
                    0 <= k < rest.len() && rest[k] == c && (c as int) < elim.len() && !elim[c as int]
                    && forall|j: int| 0 <= j < k ==> !((rest[j] as int) < elim.len() && !elim[rest[j] as int]);
                assert(prefs[k + 1] == c);
                assert forall|j: int| 0 <= j < k + 1 implies !((prefs[j] as int) < elim.len() && !elim[prefs[j] as int]) by {
                    if j > 0 {
                        assert(prefs[j] == rest[j - 1]);
                    }
                }
            } else {
                assert forall|k: int| 0 <= k < prefs.len() implies !((#[trigger] prefs[k] as int) < elim.len()
                    && !elim[prefs[k] as int]) by {
                    if k > 0 {
                        assert(prefs[k] == rest[k - 1]);
                    }
                }
            }
        }
    }
}

/// Number of ballots whose top remaining choice is `c`.
pub open spec fn votes_for(ballots: Seq<Seq<u32>>, elim: Seq<bool>, c: u32) -> nat
    decreases ballots.len(),
{
    if ballots.len() == 0 {
        0
    } else {
        votes_for(ballots.drop_last(), elim, c) + (if top_choice(ballots.last(), elim) == Some(c) { 1nat } else { 0nat })
    }
}

/// Number of ballots that still rank a choice in the race.
pub open spec fn active_count(ballots: Seq<Seq<u32>>, elim: Seq<bool>) -> nat
    decreases ballots.len(),
{
    if ballots.len() == 0 {
        0
    } else {
        active_count(ballots.drop_last(), elim) + (if top_choice(ballots.last(), elim) is Some { 1nat } else { 0nat })
    }
}

/// Law: round tallies count ballots one by one. A single ballot gives one
/// vote to its counted choice and makes one active ballot when it has one;
/// the tallies and active count of two groups of ballots together are the
/// sums of those of each group.
pub proof fn lemma_tallies_count_each_ballot(b1: Seq<Seq<u32>>, b2: Seq<Seq<u32>>, p: Seq<u32>, elim: Seq<bool>, c: u32)
    ensures
        votes_for(seq![p], elim, c) == (if top_choice(p, elim) == Some(c) { 1int } else { 0int }),
        active_count(seq![p], elim) == (if top_choice(p, elim) is Some { 1int } else { 0int }),
        votes_for(b1 + b2, elim, c) == votes_for(b1, elim, c) + votes_for(b2, elim, c),
        active_count(b1 + b2, elim) == active_count(b1, elim) + active_count(b2, elim),
    decreases b2.len(),
{
    let single = seq![p];
    assert(single.drop_last() =~= Seq::<Seq<u32>>::empty());
    assert(single.last() == p);
    assert(votes_for(Seq::<Seq<u32>>::empty(), elim, c) == 0);
    assert(active_count(Seq::<Seq<u32>>::empty(), elim) == 0);
    assert(votes_for(single, elim, c) == votes_for(single.drop_last(), elim, c)
        + (if top_choice(p, elim) == Some(c) { 1nat } else { 0nat }));
    assert(active_count(single, elim) == active_count(single.drop_last(), elim)
        + (if top_choice(p, elim) is Some { 1nat } else { 0nat }));
    if b2.len() == 0 {
        assert(b1 + b2 =~= b1);
    } else {
        lemma_tallies_count_each_ballot(b1, b2.drop_last(), p, elim, c);
        assert((b1 + b2).drop_last() =~= b1 + b2.drop_last());
        assert((b1 + b2).last() == b2.last());
    }
}

/// The tallies of one round, indexed by choice.
pub open spec fn round_tallies(ballots: Seq<Seq<u32>>, elim: Seq<bool>) -> Seq<int> {
    Seq::new(elim.len(), |c: int| votes_for(ballots, elim, c as u32) as int)
}

/// The first choice from index `i` on holding a strict majority of `active` ballots.
pub open spec fn majority_from(t: Seq<int>, active: int, i: int) -> Option<u32>
    decreases t.len() - i,
{
    if i < 0 || i >= t.len() {
        None
    } else if 2 * t[i] > active {
        Some(i as u32)
    } else {
        majority_from(t, active, i + 1)
    }
}

/// Scanning from index `i` with the lowest choice found so far `best`: the
/// choice in the race with the lowest tally, ties going to the highest index.
pub open spec fn lowest_from(t: Seq<int>, elim: Seq<bool>, i: int, best: Option<u32>) -> Option<u32>
    decreases t.len() - i,
{
    if i < 0 || i >= t.len() {
        best
    } else {
        let next = if i < elim.len() && elim[i] {
            best
        } else {
            match best {
                None => Some(i as u32),
                Some(b) => if t[i] <= t[b as int] { Some(i as u32) } else { best },
            }
        };
        lowest_from(t, elim, i + 1, next)
    }
}

/// The rounds of instant-runoff elimination from the eliminations `elim`,
/// with at most `fuel` more rounds: each round tallies the ballots; a choice
/// with a strict majority of the active ballots wins and ends the count,
/// otherwise the lowest choice (ties: highest index) is eliminated.
pub open spec fn irv_rounds(ballots: Seq<Seq<u32>>, elim: Seq<bool>, fuel: nat) -> Seq<(Seq<int>, Option<u32>, Option<u32>)>
    decreases fuel,
{
    if fuel == 0 || ballots.len() == 0 {
        Seq::empty()
    } else {
        let t = round_tallies(ballots, elim);
        match majority_from(t, active_count(ballots, elim) as int, 0) {
            Some(w) => seq![(t, None::<u32>, Some(w))],
            None => match lowest_from(t, elim, 0, None) {
                None => Seq::empty(),
                Some(e) => seq![(t, Some(e), None::<u32>)] + irv_rounds(ballots, elim.update(e as int, true), (fuel - 1) as nat),
            },
        }
    }
}

/// The eliminations before the first round: none of `n` choices is out.
pub open spec fn no_eliminations(n: nat) -> Seq<bool> {
    Seq::new(n, |i: int| false)
}

/// A sequence of counts as integers.
pub open spec fn int_seq(s: Seq<u32>) -> Seq<int> {
    s.map_values(|x: u32| x as int)
}

/// A list of round results as mathematical values.
pub open spec fn rounds_view(rs: Seq<RoundResult>) -> Seq<(Seq<int>, Option<u32>, Option<u32>)> {
    rs.map_values(|x: RoundResult| round_view(x))
}

/// A round result as a mathematical value.
pub open spec fn round_view(r: RoundResult) -> (Seq<int>, Option<u32>, Option<u32>) {
    (int_seq(r.tallies@), r.eliminated, r.winner)
}

/// A choice returned as a ballot's top choice is in range and still in the race.
proof fn lemma_top_choice_valid(prefs: Seq<u32>, elim: Seq<bool>)
    ensures
        top_choice(prefs, elim) matches Some(c) ==> (c as int) < elim.len() && !elim[c as int],
    decreases prefs.len(),
{
    if prefs.len() > 0 {
        lemma_top_choice_valid(prefs.drop_first(), elim);
    }
}

/// Law: the winner of a round is the choice holding a strict majority of
/// the active ballots, and when no winner is named no choice holds one.
pub proof fn lemma_majority_from(t: Seq<int>, active: int, i: int)
    requires
        0 <= i <= t.len(),
        t.len() <= u32::MAX,
    ensures
        majority_from(t, active, i) matches Some(w) ==> i <= w < t.len() && 2 * t[w as int] > active
            && forall|c: int| i <= c < w ==> 2 * t[c] <= active,
        majority_from(t, active, i) is None ==> forall|c: int| i <= c < t.len() ==> 2 * t[c] <= active,
    decreases t.len() - i,
{
    if i < t.len() && 2 * t[i] <= active {
        lemma_majority_from(t, active, i + 1);
    }
}

/// Law: the choice eliminated in a round is in the race, has the lowest
/// tally of all choices in the race, and is the highest-indexed among the
/// choices tied at that tally; nothing is eliminated only when every choice
/// is already out.
pub proof fn lemma_lowest_from(t: Seq<int>, elim: Seq<bool>, i: int, best: Option<u32>)
    requires
        0 <= i <= t.len(),
        t.len() == elim.len(),
        t.len() <= u32::MAX,
        best matches Some(b) ==> {
            &&& b < i
            &&& !elim[b as int]
            &&& forall|c: int| 0 <= c < i && !elim[c] ==> t[b as int] <= t[c]
            &&& forall|c: int| b < c < i && !elim[c] ==> t[b as int] < t[c]
        },
        best is None ==> forall|c: int| 0 <= c < i ==> elim[c],
    ensures
        lowest_from(t, elim, i, best) matches Some(e) ==> {
            &&& 0 <= e < t.len()
            &&& !elim[e as int]
            &&& forall|c: int| 0 <= c < t.len() && !elim[c] ==> t[e as int] <= t[c]
            &&& forall|c: int| e < c < t.len() && !elim[c] ==> t[e as int] < t[c]
        },
        lowest_from(t, elim, i, best) is None ==> forall|c: int| 0 <= c < t.len() ==> elim[c],
    decreases t.len() - i,
{
    if i < t.len() {
        let next = if elim[i] {
            best
        } else {
            match best {
                None => Some(i as u32),
                Some(b) => if t[i] <= t[b as int] { Some(i as u32) } else { best },
            }
        };
        lemma_lowest_from(t, elim, i + 1, next);
    }
}

/// Number of choices still in the race.
pub open spec fn race_count(elim: Seq<bool>) -> nat
    decreases elim.len(),
{
    if elim.len() == 0 {
        0
    } else {
        race_count(elim.drop_last()) + (if elim.last() { 0nat } else { 1nat })
    }
}

/// Every ballot is a non-empty ranking of choices below `n`.
pub open spec fn ballots_ok(ballots: Seq<Seq<u32>>, n: int) -> bool {
    forall|i: int| 0 <= i < ballots.len() ==> valid_ranking(#[trigger] ballots[i], n) && ballots[i].len() > 0
}

proof fn lemma_race_count(elim: Seq<bool>, e: int)
    requires
        0 <= e < elim.len(),
        !elim[e],
    ensures
        race_count(elim) >= 1,
        race_count(elim.update(e, true)) + 1 == race_count(elim),
        race_count(elim) == 1 ==> forall|c: int| 0 <= c < elim.len() && c != e ==> elim[c],
    decreases elim.len(),
{
    let u = elim.update(e, true);
    if e == elim.len() - 1 {
        assert(u.drop_last() =~= elim.drop_last());
        if race_count(elim) == 1 {
            assert forall|c: int| 0 <= c < elim.len() && c != e implies elim[c] by {
                lemma_race_count_zero(elim.drop_last(), c);
            }
        }
    } else {
        lemma_race_count(elim.drop_last(), e);
        assert(u.drop_last() =~= elim.drop_last().update(e, true));
        if race_count(elim) == 1 {
            assert(elim.last());
            assert forall|c: int| 0 <= c < elim.len() && c != e implies elim[c] by {
                if c < elim.len() - 1 {
                    assert(elim[c] == elim.drop_last()[c]);
                }
            }
        }
    }
}

proof fn lemma_race_count_zero(elim: Seq<bool>, c: int)
    requires
        race_count(elim) == 0,
        0 <= c < elim.len(),
    ensures
        elim[c],
    decreases elim.len(),
{
    if c < elim.len() - 1 {
        lemma_race_count_zero(elim.drop_last(), c);
        assert(elim[c] == elim.drop_last()[c]);
    }
}

proof fn lemma_race_count_none(n: nat)
    ensures
        race_count(no_eliminations(n)) == n,
    decreases n,
{
    if n > 0 {
        lemma_race_count_none((n - 1) as nat);
        assert(no_eliminations(n).drop_last() =~= no_eliminations((n - 1) as nat));
    }
}

/// A ballot whose top choice `c` is not `e` keeps it when `e` is eliminated.
proof fn lemma_top_after_elimination(prefs: Seq<u32>, elim: Seq<bool>, e: int, c: u32)
    requires
        0 <= e < elim.len(),
        top_choice(prefs, elim) == Some(c),
        c as int != e,
    ensures
        top_choice(prefs, elim.update(e, true)) == Some(c),
    decreases prefs.len(),
{
    if prefs.len() > 0 && !((prefs[0] as int) < elim.len() && !elim[prefs[0] as int]) {
        lemma_top_after_elimination(prefs.drop_first(), elim, e, c);
    }
}

/// With only `e` in the race, every active ballot counts for `e`.
proof fn lemma_last_choice_takes_all(ballots: Seq<Seq<u32>>, elim: Seq<bool>, e: u32)
    requires
        forall|c: int| 0 <= c < elim.len() && c != e ==> elim[c],
    ensures
        votes_for(ballots, elim, e) == active_count(ballots, elim),
    decreases ballots.len(),
{
    if ballots.len() > 0 {
        lemma_last_choice_takes_all(ballots.drop_last(), elim, e);
        lemma_top_choice_valid(ballots.last(), elim);
    }
}

/// Eliminating `e` loses at most the ballots that counted for `e`.
proof fn lemma_active_after_elimination(ballots: Seq<Seq<u32>>, elim: Seq<bool>, e: u32)
    requires
        (e as int) < elim.len(),
    ensures
        active_count(ballots, elim.update(e as int, true)) + votes_for(ballots, elim, e)
            >= active_count(ballots, elim),
    decreases ballots.len(),
{
    if ballots.len() > 0 {
        lemma_active_after_elimination(ballots.drop_last(), elim, e);
        if let Some(c) = top_choice(ballots.last(), elim) {
            if c != e {
                lemma_top_after_elimination(ballots.last(), elim, e as int, c);
            }
        }
    }
}

/// Before any elimination every non-empty ranking is active.
proof fn lemma_all_active_at_start(ballots: Seq<Seq<u32>>, n: nat)
    requires
        ballots_ok(ballots, n as int),
    ensures
        active_count(ballots, no_eliminations(n)) == ballots.len(),
    decreases ballots.len(),
{
    if ballots.len() > 0 {
        let b = ballots.last();
        assert(ballots_ok(ballots.drop_last(), n as int)) by {
            assert forall|i: int| 0 <= i < ballots.drop_last().len()
                implies valid_ranking(#[trigger] ballots.drop_last()[i], n as int) && ballots.drop_last()[i].len() > 0 by {
                assert(ballots.drop_last()[i] == ballots[i]);
            }
        }
        lemma_all_active_at_start(ballots.drop_last(), n);
        assert(valid_ranking(ballots[ballots.len() - 1], n as int) && ballots[ballots.len() - 1].len() > 0);
        assert(b[0] < n);
    }
}

/// From eliminations `elim` with some ballot active and at least as many
/// rounds left as choices in the race, the count ends with a winner.
proof fn lemma_rounds_end_with_winner(ballots: Seq<Seq<u32>>, elim: Seq<bool>, fuel: nat)
    requires
        ballots.len() > 0,
        elim.len() <= u32::MAX,
        active_count(ballots, elim) > 0,
        race_count(elim) >= 1,
        fuel >= race_count(elim),
    ensures
        ({
            let rs = irv_rounds(ballots, elim, fuel);
            &&& 0 < rs.len() <= race_count(elim)
            &&& rs.last().2 is Some
            &&& forall|i: int| 0 <= i < rs.len() - 1 ==> (#[trigger] rs[i]).1 is Some && rs[i].2 is None
        }),
    decreases fuel,
{
    let t = round_tallies(ballots, elim);
    let a = active_count(ballots, elim) as int;
    if majority_from(t, a, 0) is None {
        lemma_majority_from(t, a, 0);
        lemma_lowest_from(t, elim, 0, None);
        if lowest_from(t, elim, 0, None) is None {
            assert(forall|c: int| 0 <= c < elim.len() ==> elim[c]);
            lemma_race_count_all_out(elim);
        }
        let e = lowest_from(t, elim, 0, None).unwrap();
        lemma_race_count(elim, e as int);
        if race_count(elim) == 1 {
            lemma_last_choice_takes_all(ballots, elim, e);
            assert(t[e as int] == a);
        }
        assert(2 * t[e as int] <= a);
        lemma_active_after_elimination(ballots, elim, e);
        let next = elim.update(e as int, true);
        lemma_rounds_end_with_winner(ballots, next, (fuel - 1) as nat);
        let rest = irv_rounds(ballots, next, (fuel - 1) as nat);
        let rs = irv_rounds(ballots, elim, fuel);
        assert(rs == seq![(t, Some(e), None::<u32>)] + rest);
        assert(rs.last() == rest.last());
        assert forall|i: int| 0 <= i < rs.len() - 1 implies (#[trigger] rs[i]).1 is Some && rs[i].2 is None by {
            if i > 0 {
                assert(rs[i] == rest[i - 1]);
            }
        }
    }
}

proof fn lemma_race_count_all_out(elim: Seq<bool>)
    requires
        forall|c: int| 0 <= c < elim.len() ==> elim[c],
    ensures
        race_count(elim) == 0,
    decreases elim.len(),
{
    if elim.len() > 0 {
        lemma_race_count_all_out(elim.drop_last());
    }
}

/// Law: once at least one ranked ballot is in, instant-runoff ends with a
/// winner after at most one round per choice; every round before the last
/// eliminates a choice and names no winner.
pub proof fn lemma_runoff_ends_with_winner(c: BallotContract)
    requires
        c.wf(),
        c.ranked.len() > 0,
    ensures
        ({
            let rs = irv_rounds(ballot_prefs(c.ranked@), no_eliminations(c.choices.len() as nat),
                (c.choices.len() + 1) as nat);
            &&& 0 < rs.len() <= c.choices.len()
            &&& rs.last().2 is Some
            &&& forall|i: int| 0 <= i < rs.len() - 1 ==> (#[trigger] rs[i]).1 is Some && rs[i].2 is None
        }),
{
    let n = c.choices.len() as nat;
    let bp = ballot_prefs(c.ranked@);
    assert(ballots_ok(bp, n as int)) by {
        assert forall|i: int| 0 <= i < bp.len() implies valid_ranking(#[trigger] bp[i], n as int) && bp[i].len() > 0 by {
            assert(bp[i] == c.ranked@[i].preferences@);
        }
    }
    lemma_all_active_at_start(bp, n);
    lemma_race_count_none(n);
    assert(bp[0].len() > 0 && bp[0][0] < n);
    lemma_rounds_end_with_winner(bp, no_eliminations(n), (n + 1) as nat);
}

impl BallotContract {
    pub open spec fn initialized(&self) -> bool {
        self.admin is Some
    }

    /// Single-choice tally of choice `c` (0 when out of range).
    pub open spec fn tally_of(&self, c: int) -> u32 {
        if 0 <= c < self.choice_votes.len() { self.choice_votes@[c] } else { 0 }
    }

    /// `voter` has submitted a ranked ballot.
    pub open spec fn ranked_by(&self, voter: Address) -> bool {
        exists|i: int| 0 <= i < self.ranked.len() && #[trigger] self.ranked@[i].voter == voter
    }

    /// Well-formedness: one tally per choice, a bounded number of choices and
    /// ballots, no ballot before initialization, and every ranked ballot a
    /// valid ranking.
    pub open spec fn wf(&self) -> bool {
        &&& self.choice_votes.len() == self.choices.len()
        &&& self.choices.len() < u32::MAX
        &&& self.ranked.len() <= u32::MAX
        &&& !self.initialized() ==> self.ranked.len() == 0
        &&& forall|i: int| 0 <= i < self.ranked.len()
            ==> valid_ranking(#[trigger] self.ranked@[i].preferences@, self.choices.len() as int)
                && self.ranked@[i].preferences@.len() > 0
    }

    /// A fresh, uninitialized ballot.
    pub fn new() -> (r: Self)
        ensures
            r.admin is None,
            r.choices@.len() == 0,
            !r.closed,
            r.total_votes == 0,
            r.registered@ == Set::<u64>::empty(),
            r.voted@ == Set::<u64>::empty(),
            r.choice_votes@.len() == 0,
            r.ranked@.len() == 0,
            r.wf(),
    {
        BallotContract {
            admin: None,
            choices: Vec::new(),
            voting_start: 0,
            voting_end: 0,
            closed: false,
            total_votes: 0,
            registered: HashSet::new(),
            voted: HashSet::new(),
            choice_votes: Vec::new(),
            ranked: Vec::new(),
        }
    }

    /// Initialize the ballot with an admin, the voting window
    /// `[voting_start, voting_end]` and an ordered list of choices.
    pub fn initialize(&mut self, admin: Address, voting_start: u32, voting_end: u32, choices: Vec<String>)
        -> (r: Result<(), BallotError>)
        requires
            old(self).wf(),
            !old(self).initialized() ==> choices.len() < u32::MAX,
        ensures
            final(self).wf(),
            old(self).initialized() ==> r == Err::<(), BallotError>(BallotError::AlreadyInitialized)
                && *final(self) == *old(self),
            !old(self).initialized() ==> {
                &&& r is Ok
                &&& final(self).admin == Some(admin)
                &&& final(self).choices@ == choices@
                &&& final(self).voting_start == voting_start
                &&& final(self).voting_end == voting_end
                &&& !final(self).closed
                &&& final(self).total_votes == 0
                &&& final(self).choice_votes@ == Seq::new(choices.len() as nat, |i: int| 0u32)
                &&& final(self).registered@ == old(self).registered@
                &&& final(self).voted@ == old(self).voted@
                &&& final(self).ranked@ == old(self).ranked@
            },
    {
        if self.admin.is_some() {
            return Err(BallotError::AlreadyInitialized);
        }
        let n = choices.len();
        let mut zeros: Vec<u32> = Vec::new();
        let mut i: usize = 0;
        while i < n
            invariant
                0 <= i <= n,
                zeros@ == Seq::new(i as nat, |k: int| 0u32),
            decreases n - i,
        {
            zeros.push(0);
            i = i + 1;
        }
        self.admin = Some(admin);
        self.choices = choices;
        self.voting_start = voting_start;
        self.voting_end = voting_end;
        self.closed = false;
        self.total_votes = 0;
        self.choice_votes = zeros;
        Ok(())
    }

    /// Register a voter (the ballot must be initialized; admin only).
    pub fn register_voter(&mut self, voter: Address) -> (r: Result<(), BallotError>)
        requires
            old(self).wf(),
        ensures
            final(self).wf(),
            !old(self).initialized() ==> r == Err::<(), BallotError>(BallotError::NotInitialized)
                && *final(self) == *old(self),
            old(self).initialized() ==> r is Ok
                && *final(self) == (BallotContract { registered: final(self).registered, ..*old(self) })
                && final(self).registered@ == old(self).registered@.insert(voter),
    {
        if self.admin.is_none() {
            return Err(BallotError::NotInitialized);
        }
        self.registered.insert(voter);
        Ok(())
    }

    /// Why `voter` may not vote at `ledger` at all, if so: the ballot is not
    /// set up, the voter is not registered, or the window is not open.
    pub open spec fn gate_error(&self, voter: Address, ledger: u32) -> Option<BallotError> {
        if !self.initialized() {
            Some(BallotError::NotInitialized)
        } else if !self.registered@.contains(voter) {
            Some(BallotError::NotRegistered)
        } else if self.closed {
            Some(BallotError::VotingClosed)
        } else if ledger < self.voting_start {
            Some(BallotError::VotingNotStarted)
        } else if ledger > self.voting_end {
            Some(BallotError::VotingClosed)
        } else {
            None
        }
    }

    fn check_gate(&self, voter: Address, ledger: u32) -> (r: Result<(), BallotError>)
        ensures
            r matches Err(e) ==> self.gate_error(voter, ledger) == Some(e),
            r is Ok <==> self.gate_error(voter, ledger) is None,
    {
        if self.admin.is_none() {
            return Err(BallotError::NotInitialized);
        }
        if !self.registered.contains(&voter) {
            return Err(BallotError::NotRegistered);
        }
        if self.closed {
            return Err(BallotError::VotingClosed);
        }
        if ledger < self.voting_start {
            return Err(BallotError::VotingNotStarted);
        }
        if ledger > self.voting_end {
            return Err(BallotError::VotingClosed);
        }
        Ok(())
    }

    /// The error a single-choice vote for `choice` at `ledger` is refused with, if any.
    pub open spec fn vote_error(&self, voter: Address, choice: u32, ledger: u32) -> Option<BallotError> {
        if self.gate_error(voter, ledger) is Some {
            self.gate_error(voter, ledger)
        } else if self.voted@.contains(voter) {
            Some(BallotError::AlreadyVoted)
        } else if choice >= self.choices.len() {
            Some(BallotError::InvalidChoice)
        } else {
            None
        }
    }

    /// Cast a single-choice vote for choice index `choice` (0 = no, 1 = yes
    /// for a binary ballot) at `ledger`. Each registered voter votes once,
    /// inside the window and before the ballot is closed.
    pub fn vote(&mut self, voter: Address, choice: u32, ledger: u32) -> (r: Result<(), BallotError>)
        requires
            old(self).wf(),
            old(self).vote_error(voter, choice, ledger) is None ==> {
                &&& old(self).tally_of(choice as int) < u32::MAX
                &&& old(self).total_votes < u32::MAX
            },
        ensures
            final(self).wf(),
            r is Err <==> old(self).vote_error(voter, choice, ledger) is Some,
            r matches Err(e) ==> Some(e) == old(self).vote_error(voter, choice, ledger) && *final(self) == *old(self),
            r is Ok ==> {
                &&& final(self).choice_votes@ == old(self).choice_votes@.update(
                    choice as int,
                    (old(self).tally_of(choice as int) + 1) as u32,
                )
                &&& final(self).total_votes == old(self).total_votes + 1
                &&& final(self).voted@ == old(self).voted@.insert(voter)
                &&& *final(self) == (BallotContract {
                    choice_votes: final(self).choice_votes,
                    total_votes: final(self).total_votes,
                    voted: final(self).voted,
                    ..*old(self)
                })
            },
    {
        self.check_gate(voter, ledger)?;
        if self.voted.contains(&voter) {
            return Err(BallotError::AlreadyVoted);
        }
        if choice as usize >= self.choices.len() {
            return Err(BallotError::InvalidChoice);
        }
        let current = self.choice_votes[choice as usize];
        self.choice_votes.set(choice as usize, current + 1);
        self.total_votes = self.total_votes + 1;
        self.voted.insert(voter);
        Ok(())
    }

    /// Returns the single-choice votes for "yes" (choice 1), or 0 without such a choice.
    pub fn get_yes_votes(&self) -> (r: u32)
        ensures
            r == self.tally_of(1),
    {
        if self.choice_votes.len() > 1 { self.choice_votes[1] } else { 0 }
    }

    /// Returns the single-choice votes for "no" (choice 0), or 0 without such a choice.
    pub fn get_no_votes(&self) -> (r: u32)
        ensures
            r == self.tally_of(0),
    {
        if self.choice_votes.len() > 0 { self.choice_votes[0] } else { 0 }
    }

    /// Returns the current `(yes, no)` tally; reading it changes nothing.
    pub fn get_tally(&self) -> (r: (u32, u32))
        ensures
            r == (self.tally_of(1), self.tally_of(0)),
    {
        (self.get_yes_votes(), self.get_no_votes())
    }

    /// Close the ballot (admin only) and return the `(yes, no)` tally; no
    /// vote is accepted afterwards.
    pub fn tally(&mut self) -> (r: Result<(u32, u32), BallotError>)
        requires
            old(self).wf(),
        ensures
            final(self).wf(),
            !old(self).initialized() ==> r == Err::<(u32, u32), BallotError>(BallotError::NotInitialized)
                && *final(self) == *old(self),
            old(self).initialized() ==> r == Ok::<(u32, u32), BallotError>((old(self).tally_of(1), old(self).tally_of(0)))
                && *final(self) == (BallotContract { closed: true, ..*old(self) }),
    {
        if self.admin.is_none() {
            return Err(BallotError::NotInitialized);
        }
        self.closed = true;
        Ok(self.get_tally())
    }

    /// Close the ballot once the voting window has passed (anyone may call)
    /// and return the `(yes, no)` tally.
    pub fn tally_all(&mut self, ledger: u32) -> (r: Result<(u32, u32), BallotError>)
        requires
            old(self).wf(),
        ensures
            final(self).wf(),
            !old(self).initialized() ==> r == Err::<(u32, u32), BallotError>(BallotError::NotInitialized)
                && *final(self) == *old(self),
            old(self).initialized() && ledger <= old(self).voting_end
                ==> r == Err::<(u32, u32), BallotError>(BallotError::VotingStillOpen) && *final(self) == *old(self),
            old(self).initialized() && ledger > old(self).voting_end
                ==> r == Ok::<(u32, u32), BallotError>((old(self).tally_of(1), old(self).tally_of(0)))
                && *final(self) == (BallotContract { closed: true, ..*old(self) }),
    {
        if self.admin.is_none() {
            return Err(BallotError::NotInitialized);
        }
        if ledger <= self.voting_end {
            return Err(BallotError::VotingStillOpen);
        }
        self.closed = true;
        Ok(self.get_tally())
    }

    /// The error the ranked ballot `prefs` of `voter` at `ledger` is refused
    /// with, if any. Preferences are checked in order, so the first
    /// out-of-range or repeated index decides which error is reported.
    pub open spec fn ranked_error(&self, voter: Address, prefs: Seq<u32>, ledger: u32) -> Option<BallotError> {
        if self.gate_error(voter, ledger) is Some {
            self.gate_error(voter, ledger)
        } else if prefs.len() == 0 {
            Some(BallotError::EmptyBallot)
        } else if exists|i: int| 0 <= i < prefs.len() && #[trigger] prefs[i] >= self.choices.len()
            && forall|j: int, k: int| 0 <= j < k < i ==> prefs[j] != prefs[k] {
            Some(BallotError::InvalidChoice)
        } else if !valid_ranking(prefs, self.choices.len() as int) {
            Some(BallotError::DuplicateChoice)
        } else if self.ranked_by(voter) {
            Some(BallotError::AlreadyVoted)
        } else {
            None
        }
    }

    fn check_ranked(&self, voter: Address, prefs: &Vec<u32>, ledger: u32) -> (r: Result<(), BallotError>)
        ensures
            r matches Err(e) ==> self.ranked_error(voter, prefs@, ledger) == Some(e),
            r is Ok <==> self.ranked_error(voter, prefs@, ledger) is None,
    {
        self.check_gate(voter, ledger)?;
        if prefs.len() == 0 {
            return Err(BallotError::EmptyBallot);
        }
        let num_choices = self.choices.len();
        let n = prefs.len();
        let mut i: usize = 0;
        while i < n
            invariant
                n == prefs.len(),
                num_choices == self.choices.len(),
                0 <= i <= n,
                forall|j: int| 0 <= j < i ==> #[trigger] prefs@[j] < num_choices,
                forall|j: int, k: int| 0 <= j < k < i ==> prefs@[j] != prefs@[k],
                self.gate_error(voter, ledger) is None,
                prefs@.len() > 0,
            decreases n - i,
        {
            let p = prefs[i];
            if p as usize >= num_choices {
                assert(prefs@[i as int] >= self.choices.len());
                return Err(BallotError::InvalidChoice);
            }
            let mut j: usize = 0;
            while j < i
                invariant
                    n == prefs.len(),
                    0 <= j <= i < n,
                    p == prefs@[i as int],
                    num_choices == self.choices.len(),
                    (p as int) < num_choices,
                    forall|q: int| 0 <= q < i ==> #[trigger] prefs@[q] < num_choices,
                    forall|q: int| 0 <= q < j ==> prefs@[q] != p,
                    self.gate_error(voter, ledger) is None,
                    prefs@.len() > 0,
                decreases i - j,
            {
                if prefs[j] == p {
                    assert(!valid_ranking(prefs@, num_choices as int));
                    assert forall|w: int| 0 <= w < prefs@.len() && #[trigger] prefs@[w] >= self.choices.len()
                        implies !(forall|a: int, b: int| 0 <= a < b < w ==> prefs@[a] != prefs@[b]) by {
                        assert(w > i);
                        assert(prefs@[j as int] == prefs@[i as int]);
                    }
                    assert(!(exists|w: int| 0 <= w < prefs@.len() && #[trigger] prefs@[w] >= self.choices.len()
                        && forall|a: int, b: int| 0 <= a < b < w ==> prefs@[a] != prefs@[b]));
                    return Err(BallotError::DuplicateChoice);
                }
                j = j + 1;
            }
            i = i + 1;
        }
        assert(valid_ranking(prefs@, num_choices as int));
        assert(!(exists|w: int| 0 <= w < prefs@.len() && #[trigger] prefs@[w] >= self.choices.len()
            && forall|a: int, b: int| 0 <= a < b < w ==> prefs@[a] != prefs@[b]));
        let m = self.ranked.len();
        let mut k: usize = 0;
        while k < m
            invariant
                m == self.ranked.len(),
                0 <= k <= m,
                forall|q: int| 0 <= q < k ==> #[trigger] self.ranked@[q].voter != voter,
                self.gate_error(voter, ledger) is None,
                prefs@.len() > 0,
                valid_ranking(prefs@, self.choices.len() as int),
                !(exists|w: int| 0 <= w < prefs@.len() && #[trigger] prefs@[w] >= self.choices.len()
                    && forall|a: int, b: int| 0 <= a < b < w ==> prefs@[a] != prefs@[b]),
            decreases m - k,
        {
            if self.ranked[k].voter == voter {
                assert(self.ranked@[k as int].voter == voter);
                return Err(BallotError::AlreadyVoted);
            }
            k = k + 1;
        }
        Ok(())
    }

    /// Submit a ranked-choice ballot at `ledger` (most preferred first). The
    /// voter must be allowed to vote, the ballot non-empty with distinct,
    /// in-range indices; a voter submits at most one ranked ballot. A ballot
    /// breaking these rules is refused with the error naming the first rule
    /// broken, and nothing is recorded.
    pub fn vote_ranked(&mut self, voter: Address, preferences: Vec<u32>, ledger: u32) -> (r: Result<(), BallotError>)
        requires
            old(self).wf(),
            old(self).ranked_error(voter, preferences@, ledger) is None ==> {
                &&& old(self).ranked.len() < u32::MAX
                &&& old(self).total_votes < u32::MAX
            },
        ensures
            final(self).wf(),
            r is Err <==> old(self).ranked_error(voter, preferences@, ledger) is Some,
            r matches Err(e) ==> Some(e) == old(self).ranked_error(voter, preferences@, ledger) && *final(self) == *old(self),
            r is Ok ==> {
                &&& final(self).ranked@.len() == old(self).ranked@.len() + 1
                &&& final(self).ranked@.drop_last() == old(self).ranked@
                &&& final(self).ranked@.last().voter == voter
                &&& final(self).ranked@.last().preferences@ == preferences@
                &&& final(self).total_votes == old(self).total_votes + 1
                &&& *final(self) == (BallotContract {
                    ranked: final(self).ranked,
                    total_votes: final(self).total_votes,
                    ..*old(self)
                })
            },
    {
        self.check_ranked(voter, &preferences, ledger)?;
        self.ranked.push(RankedBallot { voter, preferences });
        self.total_votes = self.total_votes + 1;
        proof {
            assert(self.ranked@.drop_last() =~= old(self).ranked@);
            assert forall|i: int| 0 <= i < self.ranked.len()
                implies valid_ranking(#[trigger] self.ranked@[i].preferences@, self.choices.len() as int)
                    && self.ranked@[i].preferences@.len() > 0 by {
                if i < old(self).ranked.len() {
                    assert(self.ranked@[i] == old(self).ranked@[i]);
                }
            }
        }
        Ok(())
    }

    /// Returns the number of ranked ballots submitted.
    pub fn ranked_vote_count(&self) -> (r: u32)
        requires
            self.wf(),
        ensures
            r == self.ranked@.len(),
    {
        self.ranked.len() as u32
    }

    /// The top remaining choice of `prefs`.
    fn top_of(prefs: &Vec<u32>, elim: &Vec<bool>) -> (r: Option<u32>)
        ensures
            r == top_choice(prefs@, elim@),
    {
        let n = prefs.len();
        let mut j: usize = 0;
        assert(prefs@.skip(0) =~= prefs@);
        while j < n
            invariant
                n == prefs.len(),
                0 <= j <= n,
                top_choice(prefs@, elim@) == top_choice(prefs@.skip(j as int), elim@),
            decreases n - j,
        {
            let p = prefs[j];
            assert(prefs@.skip(j as int)[0] == p);
            assert(prefs@.skip(j as int).drop_first() =~= prefs@.skip(j + 1));
            if (p as usize) < elim.len() && !elim[p as usize] {
                return Some(p);
            }
            j = j + 1;
        }
        assert(prefs@.skip(n as int).len() == 0);
        None
    }

    /// The tallies and the number of active ballots of one round.
    fn tally_round(&self, elim: &Vec<bool>) -> (r: (Vec<u32>, u32))
        requires
            self.wf(),
            elim.len() == self.choices.len(),
        ensures
            int_seq(r.0@) == round_tallies(ballot_prefs(self.ranked@), elim@),
            r.1 == active_count(ballot_prefs(self.ranked@), elim@),
    {
        let n = elim.len();
        let mut tallies: Vec<u32> = Vec::new();
        let mut c: usize = 0;
        while c < n
            invariant
                0 <= c <= n,
                tallies@ == Seq::new(c as nat, |i: int| 0u32),
            decreases n - c,
        {
            tallies.push(0);
            c = c + 1;
        }
        let ghost bp = ballot_prefs(self.ranked@);
        let m = self.ranked.len();
        let mut active: u32 = 0;
        let mut k: usize = 0;
        assert(bp.take(0) =~= Seq::<Seq<u32>>::empty());
        while k < m
            invariant
                m == self.ranked.len(),
                m <= u32::MAX,
                n == elim.len(),
                n < u32::MAX,
                bp == ballot_prefs(self.ranked@),
                0 <= k <= m,
                tallies.len() == n,
                forall|i: int| 0 <= i < n ==> (#[trigger] tallies@[i]) as int == votes_for(bp.take(k as int), elim@, i as u32),
                forall|i: int| 0 <= i < n ==> #[trigger] tallies@[i] <= k,
                active == active_count(bp.take(k as int), elim@),
                active <= k,
            decreases m - k,
        {
            let top = Self::top_of(&self.ranked[k].preferences, elim);
            proof {
                assert(bp.take(k + 1).drop_last() =~= bp.take(k as int));
                assert(bp.take(k + 1).last() == self.ranked@[k as int].preferences@);
                lemma_top_choice_valid(self.ranked@[k as int].preferences@, elim@);
            }
            let ghost before = tallies@;
            if let Some(t) = top {
                let cur = tallies[t as usize];
                tallies.set(t as usize, cur + 1);
                active = active + 1;
                assert forall|i: int| 0 <= i < n implies (#[trigger] tallies@[i]) as int
                    == votes_for(bp.take(k + 1), elim@, i as u32) by {
                    if i != t as int {
                        assert(i as u32 != t);
                        assert(tallies@[i] == before[i]);
                    }
                }
            }
            k = k + 1;
        }
        assert(bp.take(m as int) =~= bp);
        assert(int_seq(tallies@) =~= round_tallies(bp, elim@));
        (tallies, active)
    }

    /// The first choice holding a strict majority of `active` ballots.
    fn find_majority(t: &Vec<u32>, active: u32) -> (r: Option<u32>)
        requires
            t.len() < u32::MAX,
        ensures
            r == majority_from(int_seq(t@), active as int, 0),
    {
        let ghost ti = int_seq(t@);
        let n = t.len();
        let mut c: usize = 0;
        while c < n
            invariant
                n == t.len(),
                n < u32::MAX,
                0 <= c <= n,
                ti == int_seq(t@),
                majority_from(ti, active as int, 0) == majority_from(ti, active as int, c as int),
            decreases n - c,
        {
            if (t[c] as u64) * 2 > active as u64 {
                return Some(c as u32);
            }
            c = c + 1;
        }
        None
    }

    /// The choice in the race with the lowest tally (ties: highest index).
    fn find_lowest(t: &Vec<u32>, elim: &Vec<bool>) -> (r: Option<u32>)
        requires
            t.len() == elim.len(),
            t.len() < u32::MAX,
        ensures
            r == lowest_from(int_seq(t@), elim@, 0, None),
    {
        let ghost ti = int_seq(t@);
        let n = t.len();
        let mut best: Option<u32> = None;
        let mut c: usize = 0;
        while c < n
            invariant
                n == t.len(),
                n == elim.len(),
                n < u32::MAX,
                0 <= c <= n,
                ti == int_seq(t@),
                best matches Some(b) ==> b < c,
                lowest_from(ti, elim@, 0, None) == lowest_from(ti, elim@, c as int, best),
            decreases n - c,
        {
            if !elim[c] {
                best = match best {
                    None => Some(c as u32),
                    Some(b) => if t[c] <= t[b as usize] { Some(c as u32) } else { Some(b) },
                };
            }
            c = c + 1;
        }
        best
    }

    /// Run instant-runoff elimination over the ranked ballots and return the
    /// rounds. Each round tallies every ballot's highest-ranked choice still
    /// in the race; a choice holding a strict majority of the active ballots
    /// wins and ends the count, otherwise the lowest-scoring choice is
    /// eliminated (ties: the highest index). Without ballots there is no round.
    pub fn tally_ranked(&self) -> (r: Vec<RoundResult>)
        requires
            self.wf(),
        ensures
            rounds_view(r@) == irv_rounds(
                ballot_prefs(self.ranked@),
                no_eliminations(self.choices.len() as nat),
                (self.choices.len() + 1) as nat,
            ),
    {
        let ghost bp = ballot_prefs(self.ranked@);
        let n = self.choices.len();
        let ghost start = no_eliminations(n as nat);
        let ghost target = irv_rounds(bp, start, (n + 1) as nat);
        let mut rounds: Vec<RoundResult> = Vec::new();
        if self.ranked.len() == 0 {
            assert(rounds_view(rounds@) =~= Seq::<(Seq<int>, Option<u32>, Option<u32>)>::empty());
            return rounds;
        }
        let mut elim: Vec<bool> = Vec::new();
        let mut c: usize = 0;
        while c < n
            invariant
                0 <= c <= n,
                elim@ == Seq::new(c as nat, |i: int| false),
            decreases n - c,
        {
            elim.push(false);
            c = c + 1;
        }
        let mut fuel: usize = n + 1;
        assert(rounds_view(rounds@) =~= Seq::<(Seq<int>, Option<u32>, Option<u32>)>::empty());
        assert(elim@ =~= start);
        while fuel > 0
            invariant
                self.wf(),
                n == self.choices.len(),
                elim.len() == n,
                bp == ballot_prefs(self.ranked@),
                bp.len() > 0,
                start == no_eliminations(n as nat),
                target == irv_rounds(bp, start, (n + 1) as nat),
                rounds_view(rounds@) + irv_rounds(bp, elim@, fuel as nat) == target,
            decreases fuel,
        {
            let (tallies, active) = self.tally_round(&elim);
            let ghost t = round_tallies(bp, elim@);
            let ghost rv = rounds_view(rounds@);
            match Self::find_majority(&tallies, active) {
                Some(w) => {
                    let round = RoundResult { tallies, eliminated: None, winner: Some(w) };
                    assert(round_view(round) == (t, None::<u32>, Some(w)));
                    rounds.push(round);
                    assert(rounds_view(rounds@) =~= rv.push(round_view(round)));
                    assert(irv_rounds(bp, elim@, fuel as nat) == seq![(t, None::<u32>, Some(w))]);
                    assert(rv + seq![(t, None::<u32>, Some(w))] =~= rv.push(round_view(round)));
                    return rounds;
                },
                None => {
                    match Self::find_lowest(&tallies, &elim) {
                        None => {
                            assert(irv_rounds(bp, elim@, fuel as nat) =~= Seq::<(Seq<int>, Option<u32>, Option<u32>)>::empty());
                            assert(rv + Seq::<(Seq<int>, Option<u32>, Option<u32>)>::empty() =~= rv);
                            return rounds;
                        },
                        Some(e) => {
                            proof {
                                lemma_lowest_from(t, elim@, 0, None);
                            }
                            let round = RoundResult { tallies, eliminated: Some(e), winner: None };
                            assert(round_view(round) == (t, Some(e), None::<u32>));
                            let ghost rest = irv_rounds(bp, elim@.update(e as int, true), (fuel - 1) as nat);
                            assert(irv_rounds(bp, elim@, fuel as nat) == seq![(t, Some(e), None::<u32>)] + rest);
                            rounds.push(round);
                            assert(rounds_view(rounds@) =~= rv.push(round_view(round)));
                            assert(rv + (seq![(t, Some(e), None::<u32>)] + rest) =~= rv.push(round_view(round)) + rest);
                            elim.set(e as usize, true);
                            fuel = fuel - 1;
                        },
                    }
                },
            }
        }
        assert(irv_rounds(bp, elim@, 0) =~= Seq::<(Seq<int>, Option<u32>, Option<u32>)>::empty());
        assert(rounds_view(rounds@) + Seq::<(Seq<int>, Option<u32>, Option<u32>)>::empty()
            =~= rounds_view(rounds@));
        rounds
    }
}

} // verus!
