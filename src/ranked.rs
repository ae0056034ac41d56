use vstd::prelude::*;

use crate::datatypes::{FinalRidingResult, Party, Riding};

verus! {

/// A group of identical ballots: how many were cast, and their ranking, most
/// preferred first, as indices into the riding's candidates. Entries that name
/// no candidate are passed over.
pub struct Ballot {
    pub count: usize,
    pub ranking: Vec<usize>,
}

/// The ranked ballots of one riding.
pub struct RankedRidingResult {
    pub riding: Riding,
    pub candidates: Vec<Party>,
    pub ballots: Vec<Ballot>,
}

/// Why an instant-runoff count ends without a winner.
#[derive(Debug, PartialEq, Eq, Structural)]
pub enum RankedChoiceError {
    /// No ballot ranks any candidate.
    NoVotes,
    /// Every remaining candidate holds the same number of ballots, and none
    /// holds a majority.
    UnresolvedTie,
}

/// The highest-ranked active candidate of a ranking, from position `k` on.
pub open spec fn choice_from(ranking: Seq<usize>, active: Seq<bool>, k: int) -> Option<int>
    decreases ranking.len() - k,
{
    if k < 0 || k >= ranking.len() {
        None
    } else if (ranking[k] as int) < active.len() && active[ranking[k] as int] {
        Some(ranking[k] as int)
    } else {
        choice_from(ranking, active, k + 1)
    }
}

/// The candidate a ballot is assigned to: its highest-ranked active one.
/// `None` when the ballot is exhausted.
pub open spec fn choice(ranking: Seq<usize>, active: Seq<bool>) -> Option<int> {
    choice_from(ranking, active, 0)
}

/// The ballots among the first `m` groups that are assigned to candidate `c`.
pub open spec fn assigned(ballots: Seq<Ballot>, active: Seq<bool>, c: int, m: int) -> nat
    decreases m,
{
    if m <= 0 {
        0
    } else {
        assigned(ballots, active, c, m - 1) + if choice(ballots[m - 1].ranking@, active) == Some(
            c,
        ) {
            ballots[m - 1].count as nat
        } else {
            0
        }
    }
}

/// The ballots among the first `m` groups that are not exhausted.
pub open spec fn counted(ballots: Seq<Ballot>, active: Seq<bool>, m: int) -> nat
    decreases m,
{
    if m <= 0 {
        0
    } else {
        counted(ballots, active, m - 1) + if choice(ballots[m - 1].ranking@, active) is Some {
            ballots[m - 1].count as nat
        } else {
            0
        }
    }
}

/// All ballots among the first `m` groups.
pub open spec fn ballot_total(ballots: Seq<Ballot>, m: int) -> nat
    decreases m,
{
    if m <= 0 {
        0
    } else {
        ballot_total(ballots, m - 1) + ballots[m - 1].count as nat
    }
}

/// The ballots assigned to each candidate.
pub open spec fn tallies(ballots: Seq<Ballot>, active: Seq<bool>) -> Seq<nat> {
    Seq::new(active.len(), |c: int| assigned(ballots, active, c, ballots.len() as int))
}

/// The first active candidate, from index `i` on, that holds more than half
/// of `total`.
pub open spec fn majority_from(t: Seq<nat>, active: Seq<bool>, total: nat, i: int) -> Option<int>
    decreases active.len() - i,
{
    if i < 0 || i >= active.len() {
        None
    } else if active[i] && 2 * t[i] > total {
        Some(i)
    } else {
        majority_from(t, active, total, i + 1)
    }
}

/// The number of active candidates among the first `i`.
pub open spec fn active_count(active: Seq<bool>, i: int) -> nat
    decreases i,
{
    if i <= 0 {
        0
    } else {
        active_count(active, i - 1) + if active[i - 1] {
            1nat
        } else {
            0
        }
    }
}

/// The active candidate with the fewest ballots among the first `i`; of
/// several, the one listed first among the candidates.
pub open spec fn last_place(t: Seq<nat>, active: Seq<bool>, i: int) -> Option<int>
    decreases i,
{
    if i <= 0 {
        None
    } else {
        let best = last_place(t, active, i - 1);
        if active[i - 1] && (best matches Some(b) ==> t[i - 1] < t[b]) {
            Some(i - 1)
        } else {
            best
        }
    }
}

/// Every active candidate holds the same number of ballots.
pub open spec fn all_tied(t: Seq<nat>, active: Seq<bool>) -> bool {
    forall|x: int, y: int|
        0 <= x < active.len() && 0 <= y < active.len() && active[x] && active[y] ==> t[x] == t[y]
}

/// The instant-runoff count from a set of active candidates: the winner's
/// index, or why there is none. In each round a candidate with a majority of
/// the ballots still counted wins; otherwise the sole remaining candidate
/// wins, a tie among all remaining candidates ends the count, or the last
/// candidate is eliminated and its ballots pass to their next preferences.
pub open spec fn runoff(ballots: Seq<Ballot>, active: Seq<bool>) -> Result<int, RankedChoiceError>
    decreases active_count(active, active.len() as int),
{
    let t = tallies(ballots, active);
    let total = counted(ballots, active, ballots.len() as int);
    match majority_from(t, active, total, 0) {
        Some(w) => Ok(w),
        None => match last_place(t, active, active.len() as int) {
            None => Err(RankedChoiceError::NoVotes),
            Some(e) => if active_count(active, active.len() as int) == 1 {
                Ok(e)
            } else if all_tied(t, active) {
                Err(RankedChoiceError::UnresolvedTie)
            } else {
                proof {
                    lemma_last_place(t, active, active.len() as int);
                    lemma_active_count_drop(active, e, active.len() as int);
                }
                runoff(ballots, active.update(e, false))
            },
        },
    }
}

/// The candidates that open the count: those with at least one first preference.
pub open spec fn initial_active(ballots: Seq<Ballot>, n: nat) -> Seq<bool> {
    let everyone = Seq::new(n, |c: int| true);
    Seq::new(n, |c: int| assigned(ballots, everyone, c, ballots.len() as int) > 0)
}

/// The outcome of the instant-runoff count of a riding.
pub open spec fn ranked_outcome(ranked: RankedRidingResult) -> Result<int, RankedChoiceError> {
    runoff(ranked.ballots@, initial_active(ranked.ballots@, ranked.candidates@.len()))
}

pub proof fn lemma_last_place(t: Seq<nat>, active: Seq<bool>, i: int)
    requires
        i <= active.len(),
    ensures
        match last_place(t, active, i) {
            Some(e) => 0 <= e < i && active[e],
            None => forall|j: int| 0 <= j < i ==> !active[j],
        },
    decreases i,
{
    if i > 0 {
        lemma_last_place(t, active, i - 1);
    }
}

pub proof fn lemma_active_count_drop(active: Seq<bool>, e: int, i: int)
    requires
        0 <= e < active.len(),
        active[e],
        i <= active.len(),
    ensures
        active_count(active.update(e, false), i) + (if 0 <= e < i {
            1nat
        } else {
            0
        }) == active_count(active, i),
    decreases i,
{
    if i > 0 {
        lemma_active_count_drop(active, e, i - 1);
    }
}

proof fn lemma_active_count_bound(active: Seq<bool>, i: int)
    requires
        0 <= i <= active.len(),
    ensures
        active_count(active, i) <= i,
    decreases i,
{
    if i > 0 {
        lemma_active_count_bound(active, i - 1);
    }
}

proof fn lemma_ballot_total_prefix(ballots: Seq<Ballot>, m: int, k: int)
    requires
        0 <= k <= m,
    ensures
        ballot_total(ballots, k) <= ballot_total(ballots, m),
    decreases m - k,
{
    if k < m {
        lemma_ballot_total_prefix(ballots, m - 1, k);
    }
}

proof fn lemma_majority_half(x: nat, total: nat)
    ensures
        (2 * x > total) == (x > total / 2),
{
    assert((2 * x > total) == (x > total / 2)) by (nonlinear_arith);
}

/// The nonnegative values of a vector of counts.
pub open spec fn counts_of(v: Seq<usize>) -> Seq<nat> {
    v.map_values(|x: usize| x as nat)
}

/// The candidate that a ranking is assigned to.
fn current_choice(ranking: &Vec<usize>, active: &Vec<bool>) -> (r: Option<usize>)
    ensures
        choice(ranking@, active@) == (match r {
            Some(c) => Some(c as int),
            None => None::<int>,
        }),
        r matches Some(c) ==> c < active.len(),
{
    let mut k: usize = 0;
    while k < ranking.len()
        invariant
            0 <= k <= ranking.len(),
            choice(ranking@, active@) == choice_from(ranking@, active@, k as int),
        decreases ranking.len() - k,
    {
        let c = ranking[k];
        if c < active.len() && active[c] {
            return Some(c);
        }
        k = k + 1;
    }
    None
}

/// The ballots assigned to each candidate, and the ballots not exhausted.
fn tally_round(ballots: &Vec<Ballot>, active: &Vec<bool>) -> (r: (Vec<usize>, usize))
    requires
        ballot_total(ballots@, ballots.len() as int) <= usize::MAX,
    ensures
        r.0.len() == active.len(),
        counts_of(r.0@) == tallies(ballots@, active@),
        r.1 == counted(ballots@, active@, ballots.len() as int),
{
    let n = active.len();
    let mut t: Vec<usize> = Vec::new();
    while t.len() < n
        invariant
            t.len() <= n,
            forall|c: int| 0 <= c < t.len() ==> t@[c] == 0,
        decreases n - t.len(),
    {
        t.push(0);
    }
    let mut total: usize = 0;
    let mut k: usize = 0;
    while k < ballots.len()
        invariant
            n == active.len(),
            t.len() == n,
            0 <= k <= ballots.len(),
            ballot_total(ballots@, ballots.len() as int) <= usize::MAX,
            forall|c: int| 0 <= c < n ==> t@[c] == assigned(ballots@, active@, c, k as int),
            forall|c: int| 0 <= c < n ==> assigned(ballots@, active@, c, k as int) <= counted(ballots@, active@, k as int),
            total == counted(ballots@, active@, k as int),
            counted(ballots@, active@, k as int) <= ballot_total(ballots@, k as int),
        decreases ballots.len() - k,
    {
        proof {
            lemma_ballot_total_prefix(ballots@, ballots.len() as int, k + 1);
        }
        let ballot = &ballots[k];
        match current_choice(&ballot.ranking, active) {
            Some(c) => {
                let v = t[c] + ballot.count;
                t.set(c, v);
                total = total + ballot.count;
            },
            None => {},
        }
        assert forall|c: int| 0 <= c < n implies #[trigger] assigned(ballots@, active@, c, k + 1) <= counted(
            ballots@,
            active@,
            k + 1,
        ) by {
            assert(assigned(ballots@, active@, c, k as int) <= counted(ballots@, active@, k as int));
        }
        k = k + 1;
    }
    assert(counts_of(t@) =~= tallies(ballots@, active@));
    (t, total)
}

/// The number of active candidates.
fn count_active(active: &Vec<bool>) -> (r: usize)
    ensures
        r == active_count(active@, active.len() as int),
{
    let mut n: usize = 0;
    let mut i: usize = 0;
    while i < active.len()
        invariant
            0 <= i <= active.len(),
            n == active_count(active@, i as int),
        decreases active.len() - i,
    {
        proof {
            lemma_active_count_bound(active@, i + 1);
        }
        if active[i] {
            n = n + 1;
        }
        i = i + 1;
    }
    n
}

/// The first active candidate with a majority of `total`.
fn find_majority(t: &Vec<usize>, active: &Vec<bool>, total: usize) -> (r: Option<usize>)
    requires
        t.len() == active.len(),
    ensures
        majority_from(counts_of(t@), active@, total as nat, 0) == (match r {
            Some(c) => Some(c as int),
            None => None::<int>,
        }),
{
    let ghost ts = counts_of(t@);
    let mut i: usize = 0;
    while i < active.len()
        invariant
            ts == counts_of(t@),
            t.len() == active.len(),
            0 <= i <= active.len(),
            majority_from(ts, active@, total as nat, 0) == majority_from(ts, active@, total as nat, i as int),
        decreases active.len() - i,
    {
        proof {
            lemma_majority_half(ts[i as int], total as nat);
        }
        if active[i] && t[i] > total / 2 {
            return Some(i);
        }
        i = i + 1;
    }
    None
}

/// The active candidate with the fewest ballots, the first listed among equals.
fn find_last_place(t: &Vec<usize>, active: &Vec<bool>) -> (r: Option<usize>)
    requires
        t.len() == active.len(),
    ensures
        last_place(counts_of(t@), active@, active.len() as int) == (match r {
            Some(c) => Some(c as int),
            None => None::<int>,
        }),
{
    let ghost ts = counts_of(t@);
    let mut best: Option<usize> = None;
    let mut i: usize = 0;
    while i < active.len()
        invariant
            ts == counts_of(t@),
            t.len() == active.len(),
            0 <= i <= active.len(),
            last_place(ts, active@, i as int) == (match best {
                Some(c) => Some(c as int),
                None => None::<int>,
            }),
            best matches Some(b) ==> b < i,
        decreases active.len() - i,
    {
        if active[i] {
            match best {
                Some(b) => {
                    if t[i] < t[b] {
                        best = Some(i);
                    }
                },
                None => {
                    best = Some(i);
                },
            }
        }
        i = i + 1;
    }
    best
}

/// Whether every active candidate holds as many ballots as the active candidate `e`.
fn tied_with(t: &Vec<usize>, active: &Vec<bool>, e: usize) -> (r: bool)
    requires
        t.len() == active.len(),
        e < active.len(),
        active@[e as int],
    ensures
        r == all_tied(counts_of(t@), active@),
{
    let ghost ts = counts_of(t@);
    let mut i: usize = 0;
    while i < active.len()
        invariant
            ts == counts_of(t@),
            t.len() == active.len(),
            e < active.len(),
            active@[e as int],
            0 <= i <= active.len(),
            forall|j: int| 0 <= j < i && active@[j] ==> ts[j] == ts[e as int],
        decreases active.len() - i,
    {
        if active[i] && t[i] != t[e] {
            assert(!all_tied(ts, active@)) by {
                assert(ts[i as int] != ts[e as int]);
            }
            return false;
        }
        i = i + 1;
    }
    true
}

/// Decides one riding by instant runoff. The candidates with a first
/// preference open the count; in each round the ballots go to their
/// highest-ranked remaining candidate, a candidate with more than half of
/// the ballots not exhausted wins, and otherwise the candidate with the
/// fewest ballots is eliminated (of several, the one listed first among the
/// candidates). When one candidate remains it wins; when all that remain are
/// tied the count ends with `UnresolvedTie`; with no ballot for any candidate
/// it ends with `NoVotes`.
pub fn evaluate_riding_ranked(ranked: &RankedRidingResult) -> (r: Result<
    FinalRidingResult,
    RankedChoiceError,
>)
    requires
        ballot_total(ranked.ballots@, ranked.ballots.len() as int) <= usize::MAX,
    ensures
        match ranked_outcome(*ranked) {
            Ok(w) => r matches Ok(f) && 0 <= w < ranked.candidates.len() && f.winner_view()
                == ranked.candidates@[w]@ && f.riding_view() == ranked.riding@,
            Err(e) => r == Err::<FinalRidingResult, RankedChoiceError>(e),
        },
{
    let n = ranked.candidates.len();
    let ballots = &ranked.ballots;
    let mut everyone: Vec<bool> = Vec::new();
    while everyone.len() < n
        invariant
            everyone.len() <= n,
            forall|c: int| 0 <= c < everyone.len() ==> everyone@[c],
        decreases n - everyone.len(),
    {
        everyone.push(true);
    }
    assert(everyone@ =~= Seq::new(n as nat, |c: int| true));
    let (first, _) = tally_round(ballots, &everyone);
    let mut active: Vec<bool> = Vec::new();
    while active.len() < n
        invariant
            active.len() <= n,
            first.len() == n,
            forall|c: int| 0 <= c < active.len() ==> active@[c] == (first@[c] > 0),
        decreases n - active.len(),
    {
        let c = active.len();
        active.push(first[c] > 0);
    }
    let ghost goal = ranked_outcome(*ranked);
    assert(active@ =~= initial_active(ballots@, n as nat)) by {
        assert forall|c: int| 0 <= c < n implies active@[c] == initial_active(ballots@, n as nat)[c] by {
            assert(counts_of(first@)[c] == first@[c] as nat);
        }
    }
    loop
        invariant
            active.len() == n,
            n == ranked.candidates.len(),
            ballots == &ranked.ballots,
            ballot_total(ballots@, ballots.len() as int) <= usize::MAX,
            goal == ranked_outcome(*ranked),
            runoff(ballots@, active@) == goal,
        decreases active_count(active@, n as int),
    {
        let (t, total) = tally_round(ballots, &active);
        match find_majority(&t, &active, total) {
            Some(w) => {
                proof {
                    lemma_majority_in_range(counts_of(t@), active@, total as nat, 0);
                }
                return Ok(FinalRidingResult::new(&ranked.riding, &ranked.candidates[w]));
            },
            None => {},
        }
        let e = match find_last_place(&t, &active) {
            Some(e) => e,
            None => {
                return Err(RankedChoiceError::NoVotes);
            },
        };
        proof {
            lemma_last_place(counts_of(t@), active@, n as int);
            lemma_active_count_drop(active@, e as int, n as int);
        }
        if count_active(&active) == 1 {
            return Ok(FinalRidingResult::new(&ranked.riding, &ranked.candidates[e]));
        }
        if tied_with(&t, &active, e) {
            return Err(RankedChoiceError::UnresolvedTie);
        }
        active.set(e, false);
    }
}

proof fn lemma_majority_in_range(t: Seq<nat>, active: Seq<bool>, total: nat, i: int)
    requires
        0 <= i,
    ensures
        majority_from(t, active, total, i) matches Some(w) ==> i <= w < active.len(),
    decreases active.len() - i,
{
    if i < active.len() {
        lemma_majority_in_range(t, active, total, i + 1);
    }
}

/// The ballots among the first `m` groups that eliminating candidate `e`
/// exhausts: those assigned to `e` that rank no other active candidate below it.
pub open spec fn exhausted_by(ballots: Seq<Ballot>, active: Seq<bool>, e: int, m: int) -> nat
    decreases m,
{
    if m <= 0 {
        0
    } else {
        exhausted_by(ballots, active, e, m - 1) + if choice(ballots[m - 1].ranking@, active) == Some(
            e,
        ) && choice(ballots[m - 1].ranking@, active.update(e, false)) is None {
            ballots[m - 1].count as nat
        } else {
            0
        }
    }
}

/// Eliminating candidate `e` moves no ballot that was assigned to another
/// candidate, and an exhausted ballot stays exhausted.
pub proof fn lemma_choice_after_drop(ranking: Seq<usize>, active: Seq<bool>, e: int, k: int)
    requires
        0 <= e < active.len(),
        active[e],
    ensures
        choice_from(ranking, active, k) != Some(e) ==> choice_from(
            ranking,
            active.update(e, false),
            k,
        ) == choice_from(ranking, active, k),
    decreases ranking.len() - k,
{
    if 0 <= k < ranking.len() {
        lemma_choice_after_drop(ranking, active, e, k + 1);
    }
}

proof fn lemma_counted_after_drop(ballots: Seq<Ballot>, active: Seq<bool>, e: int, m: int)
    requires
        0 <= e < active.len(),
        active[e],
        m <= ballots.len(),
    ensures
        counted(ballots, active.update(e, false), m) + exhausted_by(ballots, active, e, m)
            == counted(ballots, active, m),
    decreases m,
{
    if m > 0 {
        lemma_counted_after_drop(ballots, active, e, m - 1);
        lemma_choice_after_drop(ballots[m - 1].ranking@, active, e, 0);
    }
}

/// Eliminating a candidate takes out of the count that a majority is measured
/// against exactly the ballots that the elimination exhausts; every other
/// ballot still counts. So the count falls strictly when any ballot is exhausted.
pub proof fn elimination_discounts_exhausted(ballots: Seq<Ballot>, active: Seq<bool>, e: int)
    requires
        0 <= e < active.len(),
        active[e],
    ensures
        counted(ballots, active.update(e, false), ballots.len() as int) + exhausted_by(
            ballots,
            active,
            e,
            ballots.len() as int,
        ) == counted(ballots, active, ballots.len() as int),
        exhausted_by(ballots, active, e, ballots.len() as int) > 0 ==> counted(
            ballots,
            active.update(e, false),
            ballots.len() as int,
        ) < counted(ballots, active, ballots.len() as int),
{
    lemma_counted_after_drop(ballots, active, e, ballots.len() as int);
}

} // verus!
