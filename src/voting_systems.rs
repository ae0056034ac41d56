use vstd::prelude::*;

use crate::datatypes::{
    seat_tally, tally_sum, tally_view, winners_of, FinalElectionResult, FinalRidingResult,
    PartyList, PartyView, RidingResult,
};
use crate::ranked::{
    ballot_total, evaluate_riding_ranked, ranked_outcome, RankedChoiceError, RankedRidingResult,
};

verus! {

/// The index of the first entry with the most votes among the first `i`.
pub open spec fn plurality_index(t: Seq<(PartyView, nat)>, i: int) -> int
    decreases i,
{
    if i <= 1 {
        0
    } else {
        let best = plurality_index(t, i - 1);
        if t[i - 1].1 > t[best].1 {
            i - 1
        } else {
            best
        }
    }
}

/// The plurality winner of a tally: the party with the most votes, and of
/// several with the most, the one whose entry comes first.
pub open spec fn plurality_winner(t: Seq<(PartyView, nat)>) -> PartyView {
    t[plurality_index(t, t.len() as int)].0
}

/// The plurality index names an entry with the most votes, and every entry
/// before it has fewer.
pub proof fn lemma_plurality_index(t: Seq<(PartyView, nat)>, i: int)
    requires
        1 <= i <= t.len(),
    ensures
        0 <= plurality_index(t, i) < i,
        forall|j: int| 0 <= j < i ==> (#[trigger] t[j]).1 <= t[plurality_index(t, i)].1,
        forall|j: int| 0 <= j < plurality_index(t, i) ==> (#[trigger] t[j]).1 < t[plurality_index(t, i)].1,
    decreases i,
{
    if i > 1 {
        lemma_plurality_index(t, i - 1);
    }
}

/// A plurality decision on a tie is the same on every run: two outcomes that
/// both meet the plurality contract for one tally name the same winner, and
/// that winner is the first of the tied parties.
pub proof fn plurality_is_reproducible(
    t: Seq<(PartyView, nat)>,
    first: FinalRidingResult,
    second: FinalRidingResult,
)
    requires
        t.len() > 0,
        first.winner_view() == plurality_winner(t),
        second.winner_view() == plurality_winner(t),
    ensures
        first.winner_view() == second.winner_view(),
        exists|w: int|
            0 <= w < t.len() && t[w].0 == first.winner_view() && (forall|j: int|
                0 <= j < t.len() ==> (#[trigger] t[j]).1 <= t[w].1) && (forall|j: int|
                0 <= j < w ==> (#[trigger] t[j]).1 < t[w].1),
{
    lemma_plurality_index(t, t.len() as int);
    let w = plurality_index(t, t.len() as int);
    assert(0 <= w < t.len() && t[w].0 == first.winner_view());
}

/// A tabulation method that decides each riding from its vote tally.
pub trait VotingSystem {
    /// The winner that this method declares for a riding.
    spec fn winner_of(&self, riding_result: RidingResult) -> PartyView;

    /// Decides every riding and counts the seats won by each party.
    fn vote(&self, riding_results: Vec<RidingResult>, party_list: &PartyList) -> (r:
        FinalElectionResult)
        requires
            party_list.wf(),
            forall|i: int|
                0 <= i < riding_results@.len() ==> (#[trigger] riding_results@[i]).votes_view().len()
                    > 0,
        ensures
            r.results_view().len() == riding_results@.len(),
            forall|i: int|
                0 <= i < riding_results@.len() ==> (#[trigger] r.results_view()[i]).winner_view()
                    == self.winner_of(riding_results@[i]) && r.results_view()[i].riding_view()
                    == riding_results@[i].riding_view(),
            r.seats_view() == seat_tally(party_list.zero_tally(), winners_of(r.results_view())),
            tally_sum(r.seats_view()) == riding_results@.len(),
    ;
}

/// Plurality: the party with the most votes wins the riding.
pub struct FirstPastThePost {}

impl FirstPastThePost {
    pub fn new() -> (r: Self) {
        Self {  }
    }

    /// The riding's winner is the party with the most votes; among parties
    /// tied for the most, the one that comes first in the tally.
    pub fn decide(&self, riding_result: &RidingResult) -> (r: FinalRidingResult)
        requires
            riding_result.votes_view().len() > 0,
        ensures
            r.winner_view() == plurality_winner(riding_result.votes_view()),
            r.riding_view() == riding_result.riding_view(),
    {
        let votes = riding_result.get_votes();
        let ghost t = riding_result.votes_view();
        let mut best: usize = 0;
        let mut i: usize = 1;
        while i < votes.len()
            invariant
                t == tally_view(votes@),
                t.len() > 0,
                1 <= i <= votes.len(),
                best as int == plurality_index(t, i as int),
                best < i,
            decreases votes.len() - i,
        {
            if votes[i].1 > votes[best].1 {
                best = i;
            }
            i = i + 1;
        }
        FinalRidingResult::new(riding_result.get_riding(), &votes[best].0)
    }
}

impl VotingSystem for FirstPastThePost {
    open spec fn winner_of(&self, riding_result: RidingResult) -> PartyView {
        plurality_winner(riding_result.votes_view())
    }

    fn vote(&self, riding_results: Vec<RidingResult>, party_list: &PartyList) -> (r:
        FinalElectionResult) {
        let mut final_riding_results: Vec<FinalRidingResult> = Vec::new();
        let mut i: usize = 0;
        while i < riding_results.len()
            invariant
                0 <= i <= riding_results.len(),
                final_riding_results@.len() == i,
                forall|j: int|
                    0 <= j < riding_results@.len() ==> (#[trigger] riding_results@[j]).votes_view().len()
                        > 0,
                forall|j: int|
                    0 <= j < i ==> (#[trigger] final_riding_results@[j]).winner_view()
                        == self.winner_of(riding_results@[j])
                        && final_riding_results@[j].riding_view() == riding_results@[j].riding_view(),
            decreases riding_results.len() - i,
        {
            let decided = self.decide(&riding_results[i]);
            final_riding_results.push(decided);
            i = i + 1;
        }
        FinalElectionResult::new(final_riding_results, party_list)
    }
}

/// Instant-runoff voting over ranked ballots.
pub struct RankedChoice {}

impl RankedChoice {
    pub fn new() -> (r: Self) {
        Self {  }
    }

    /// Decides every riding by instant runoff and counts the seats won by
    /// each party; fails with the first riding whose count ends without a
    /// winner.
    pub fn vote(&self, ranked_results: Vec<RankedRidingResult>, party_list: &PartyList) -> (r:
        Result<FinalElectionResult, RankedChoiceError>)
        requires
            party_list.wf(),
            forall|i: int|
                0 <= i < ranked_results@.len() ==> ballot_total(
                    (#[trigger] ranked_results@[i]).ballots@,
                    ranked_results@[i].ballots@.len() as int,
                ) <= usize::MAX,
        ensures
            r is Ok <==> forall|i: int|
                0 <= i < ranked_results@.len() ==> (#[trigger] ranked_outcome(ranked_results@[i])) is Ok,
            r matches Err(e) ==> exists|i: int|
                0 <= i < ranked_results@.len() && ranked_outcome(ranked_results@[i]) == Err::<
                    int,
                    RankedChoiceError,
                >(e) && forall|j: int| 0 <= j < i ==> ranked_outcome(ranked_results@[j]) is Ok,
            r matches Ok(f) ==> {
                &&& f.results_view().len() == ranked_results@.len()
                &&& forall|i: int|
                    0 <= i < ranked_results@.len() ==> #[trigger] f.results_view()[i].winner_view()
                        == ranked_results@[i].candidates@[ranked_outcome(
                        ranked_results@[i],
                    )->Ok_0]@ && f.results_view()[i].riding_view()
                        == ranked_results@[i].riding@
                &&& f.seats_view() == seat_tally(party_list.zero_tally(), winners_of(f.results_view()))
                &&& tally_sum(f.seats_view()) == ranked_results@.len()
            },
    {
        let mut final_riding_results: Vec<FinalRidingResult> = Vec::new();
        let mut i: usize = 0;
        while i < ranked_results.len()
            invariant
                0 <= i <= ranked_results.len(),
                final_riding_results@.len() == i,
                forall|j: int|
                    0 <= j < ranked_results@.len() ==> ballot_total(
                        (#[trigger] ranked_results@[j]).ballots@,
                        ranked_results@[j].ballots@.len() as int,
                    ) <= usize::MAX,
                forall|j: int| 0 <= j < i ==> (#[trigger] ranked_outcome(ranked_results@[j])) is Ok,
                forall|j: int|
                    0 <= j < i ==> #[trigger] final_riding_results@[j].winner_view()
                        == ranked_results@[j].candidates@[ranked_outcome(
                        ranked_results@[j],
                    )->Ok_0]@ && final_riding_results@[j].riding_view()
                        == ranked_results@[j].riding@,
            decreases ranked_results.len() - i,
        {
            match evaluate_riding_ranked(&ranked_results[i]) {
                Ok(decided) => {
                    final_riding_results.push(decided);
                },
                Err(e) => {
                    return Err(e);
                },
            }
            i = i + 1;
        }
        Ok(FinalElectionResult::new(final_riding_results, party_list))
    }
}

} // verus!
