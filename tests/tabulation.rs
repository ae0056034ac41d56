use canvosys::datatypes::{FinalElectionResult, FinalRidingResult, Party, PartyList, Riding, RidingResult};
use canvosys::parsing::{parse_as_riding, ResultatsBureauRecord};
use canvosys::ranked::{evaluate_riding_ranked, Ballot, RankedChoiceError, RankedRidingResult};
use canvosys::voting_systems::{FirstPastThePost, RankedChoice, VotingSystem};

fn record(label: &str, votes: usize) -> ResultatsBureauRecord {
    ResultatsBureauRecord {
        electoral_district_number: String::from("10001"),
        electoral_district_name: String::from("Avalon"),
        polling_station_number: String::from("1"),
        votes,
        party_name: String::from(label),
    }
}

fn riding() -> Riding {
    Riding::new("Avalon", "10001")
}

fn seats_of(result: &FinalElectionResult, short_form: &str) -> usize {
    result
        .get_seat_counts()
        .iter()
        .find(|(p, _)| p.get_short_form() == short_form)
        .map(|(_, n)| *n)
        .unwrap()
}

fn ballots(groups: &[(usize, &[usize])]) -> Vec<Ballot> {
    groups.iter().map(|(count, ranking)| Ballot { count: *count, ranking: ranking.to_vec() }).collect()
}

fn abc() -> Vec<Party> {
    vec![Party::new("A", "A"), Party::new("B", "B"), Party::new("C", "C")]
}

#[test]
fn label_resolves_to_canonical_party() {
    let list = PartyList::new();
    let liberal = list.get_party("Liberal");
    assert_eq!(liberal.get_name(), "Liberal");
    assert_eq!(liberal.get_short_form(), "LIB");
    assert_eq!(list.get_party("Bloc Québécois").get_short_form(), "BQ");
}

#[test]
fn unknown_label_resolves_to_other() {
    let list = PartyList::new();
    assert_eq!(list.get_party("Rhinoceros").get_short_form(), "IND");
    assert_eq!(list.get_party("").get_name(), "Independent/Other");
}

#[test]
fn short_form_lookup() {
    let list = PartyList::new();
    assert_eq!(list.get_party_short("CON").get_name(), "Conservative");
    assert_eq!(list.get_party_short("XYZ").get_short_form(), "IND");
}

#[test]
fn zero_tally_has_every_party_at_zero() {
    let list = PartyList::new();
    let zero = list.get_party_vote();
    assert_eq!(zero.len(), 7);
    assert!(zero.iter().all(|(_, n)| *n == 0));
    let shorts: Vec<&str> = zero.iter().map(|(p, _)| p.get_short_form()).collect();
    assert_eq!(shorts, vec!["NDP", "LIB", "CON", "PPC", "BQ", "GRN", "IND"]);
}

#[test]
fn riding_total_is_sum_of_votes() {
    let list = PartyList::new();
    let records = vec![record("Liberal", 120), record("Conservative", 80), record("Liberal", 30), record("Rhinoceros", 7)];
    let result = parse_as_riding(records, &list).unwrap();
    let sum: usize = result.get_votes().iter().map(|(_, n)| *n).sum();
    assert_eq!(result.get_total_votes(), 237);
    assert_eq!(sum, 237);
    let votes = result.get_votes();
    assert_eq!(votes.len(), 7);
    assert_eq!(votes[1].1, 150);
    assert_eq!(votes[2].1, 80);
    assert_eq!(votes[6].1, 7);
    assert_eq!(votes[0].1, 0);
    assert_eq!(result.get_riding().get_name(), "Avalon");
    assert_eq!(result.get_riding().get_id(), "10001");
}

#[test]
fn riding_result_new_sums_votes() {
    let votes = vec![(Party::new("A", "A"), 3), (Party::new("B", "B"), 4)];
    let result = RidingResult::new(riding(), votes);
    assert_eq!(result.get_total_votes(), 7);
}

#[test]
fn empty_station_records_are_rejected() {
    let list = PartyList::new();
    let err = parse_as_riding(Vec::new(), &list).err().unwrap();
    assert_eq!(err.reason(), "CSV file was empty");
}

#[test]
fn plurality_picks_most_votes() {
    let votes = vec![(Party::new("A", "A"), 500), (Party::new("B", "B"), 300), (Party::new("C", "C"), 200)];
    let result = RidingResult::new(riding(), votes);
    let decided = FirstPastThePost::new().decide(&result);
    assert_eq!(decided.get_winner().get_name(), "A");
    assert_eq!(decided.get_riding().get_id(), "10001");
}

#[test]
fn plurality_picks_most_votes_anywhere_in_tally() {
    let votes = vec![(Party::new("A", "A"), 1), (Party::new("B", "B"), 2), (Party::new("C", "C"), 9)];
    let decided = FirstPastThePost::new().decide(&RidingResult::new(riding(), votes));
    assert_eq!(decided.get_winner().get_name(), "C");
}

#[test]
fn plurality_tie_is_reproducible() {
    let votes = vec![(Party::new("A", "A"), 400), (Party::new("B", "B"), 400)];
    let result = RidingResult::new(riding(), votes);
    let method = FirstPastThePost::new();
    let first = method.decide(&result);
    let second = method.decide(&result);
    assert_eq!(first.get_winner(), second.get_winner());
    assert_eq!(first.get_winner().get_name(), "A");
}

#[test]
fn plurality_vote_counts_seats() {
    let list = PartyList::new();
    let r1 = parse_as_riding(vec![record("Liberal", 10), record("Green Party", 4)], &list).unwrap();
    let r2 = parse_as_riding(vec![record("Liberal", 3), record("Green Party", 4)], &list).unwrap();
    let r3 = parse_as_riding(vec![record("Liberal", 8), record("Conservative", 2)], &list).unwrap();
    let result = FirstPastThePost::new().vote(vec![r1, r2, r3], &list);
    assert_eq!(seats_of(&result, "LIB"), 2);
    assert_eq!(seats_of(&result, "GRN"), 1);
    assert_eq!(seats_of(&result, "CON"), 0);
    assert_eq!(result.get_riding_results().len(), 3);
}

#[test]
fn ranked_choice_transfers_eliminated_ballots() {
    let ranked = RankedRidingResult {
        riding: riding(),
        candidates: abc(),
        ballots: ballots(&[(40, &[0, 1, 2]), (35, &[1, 0, 2]), (25, &[2, 1, 0])]),
    };
    let decided = evaluate_riding_ranked(&ranked).unwrap();
    assert_eq!(decided.get_winner().get_name(), "B");
}

#[test]
fn ranked_choice_first_round_majority() {
    let ranked = RankedRidingResult {
        riding: riding(),
        candidates: abc(),
        ballots: ballots(&[(60, &[2]), (40, &[0, 1])]),
    };
    assert_eq!(evaluate_riding_ranked(&ranked).unwrap().get_winner().get_name(), "C");
}

#[test]
fn exhausted_ballots_leave_the_majority_count() {
    // C's ballots rank nobody else, so after C goes only 75 ballots count and
    // A's 40 is a majority; counting all 100 would have eliminated B instead.
    let ranked = RankedRidingResult {
        riding: riding(),
        candidates: abc(),
        ballots: ballots(&[(40, &[0, 1]), (35, &[1]), (25, &[2])]),
    };
    assert_eq!(evaluate_riding_ranked(&ranked).unwrap().get_winner().get_name(), "A");
}

#[test]
fn ranked_choice_unresolved_tie() {
    let ranked = RankedRidingResult {
        riding: riding(),
        candidates: abc(),
        ballots: ballots(&[(50, &[0]), (50, &[1])]),
    };
    assert_eq!(evaluate_riding_ranked(&ranked).err(), Some(RankedChoiceError::UnresolvedTie));
}

#[test]
fn ranked_choice_without_ballots() {
    let ranked = RankedRidingResult { riding: riding(), candidates: abc(), ballots: Vec::new() };
    assert_eq!(evaluate_riding_ranked(&ranked).err(), Some(RankedChoiceError::NoVotes));
}

#[test]
fn ranked_choice_last_place_tie_takes_first_listed() {
    // B and C tie for last with 30; B is listed first and goes, its ballots
    // move to C, and C wins 60 to 40.
    let ranked = RankedRidingResult {
        riding: riding(),
        candidates: abc(),
        ballots: ballots(&[(40, &[0]), (30, &[1, 2]), (30, &[2, 1])]),
    };
    assert_eq!(evaluate_riding_ranked(&ranked).unwrap().get_winner().get_name(), "C");
}

#[test]
fn ranked_choice_vote_reports_failing_riding() {
    let list = PartyList::new();
    let good = RankedRidingResult {
        riding: riding(),
        candidates: vec![list.get_party("Liberal"), list.get_party("Conservative")],
        ballots: ballots(&[(3, &[0]), (1, &[1])]),
    };
    let tied = RankedRidingResult {
        riding: Riding::new("Bonavista", "10002"),
        candidates: abc(),
        ballots: ballots(&[(5, &[0]), (5, &[1])]),
    };
    let ok = RankedChoice::new().vote(vec![good], &list).ok().unwrap();
    assert_eq!(seats_of(&ok, "LIB"), 1);
    let good_again = RankedRidingResult {
        riding: riding(),
        candidates: vec![list.get_party("Liberal")],
        ballots: ballots(&[(3, &[0])]),
    };
    assert_eq!(RankedChoice::new().vote(vec![good_again, tied], &list).err(), Some(RankedChoiceError::UnresolvedTie));
}

#[test]
fn seat_counts_sum_to_number_of_ridings() {
    let list = PartyList::new();
    let finals = vec![
        FinalRidingResult::new(&riding(), &list.get_party("Liberal")),
        FinalRidingResult::new(&Riding::new("B", "2"), &list.get_party("Liberal")),
        FinalRidingResult::new(&Riding::new("C", "3"), &list.get_party("Green Party")),
        FinalRidingResult::new(&Riding::new("D", "4"), &Party::new("Rhinoceros", "RHI")),
    ];
    let result = FinalElectionResult::new(finals, &list);
    let total: usize = result.get_seat_counts().iter().map(|(_, n)| *n).sum();
    assert_eq!(total, 4);
    assert_eq!(seats_of(&result, "LIB"), 2);
    assert_eq!(seats_of(&result, "GRN"), 1);
    assert_eq!(seats_of(&result, "RHI"), 1);
    assert_eq!(seats_of(&result, "NDP"), 0);
    assert_eq!(result.get_seat_counts().len(), 8);
}

#[test]
fn summarizing_twice_gives_same_seats() {
    let list = PartyList::new();
    let make = || {
        vec![
            FinalRidingResult::new(&riding(), &list.get_party("Conservative")),
            FinalRidingResult::new(&Riding::new("B", "2"), &list.get_party("NDP-New Democratic Party")),
        ]
    };
    let first = FinalElectionResult::new(make(), &list);
    let second = FinalElectionResult::new(make(), &list);
    assert_eq!(first.get_seat_counts(), second.get_seat_counts());
    assert_eq!(seats_of(&first, "CON"), 1);
    assert_eq!(seats_of(&first, "NDP"), 1);
}

#[test]
fn summarizing_nothing_gives_zero_seats() {
    let list = PartyList::new();
    let result = FinalElectionResult::new(Vec::new(), &list);
    assert_eq!(result.get_seat_counts().len(), 7);
    assert!(result.get_seat_counts().iter().all(|(_, n)| *n == 0));
}
