use vstd::prelude::*;

verus! {

/// What a riding is: its display name and its administrative district code.
pub struct RidingView {
    pub name: Seq<char>,
    pub id: Seq<char>,
}

/// What a party is: its display name and its abbreviation.
pub struct PartyView {
    pub name: Seq<char>,
    pub short_form: Seq<char>,
}

/// A party-to-count tally as a sequence of entries.
pub open spec fn tally_view(v: Seq<(Party, usize)>) -> Seq<(PartyView, nat)> {
    v.map_values(|e: (Party, usize)| (e.0@, e.1 as nat))
}

/// The sum of all counts of a tally.
pub open spec fn tally_sum(t: Seq<(PartyView, nat)>) -> nat
    decreases t.len(),
{
    if t.len() == 0 {
        0
    } else {
        tally_sum(t.drop_last()) + t.last().1
    }
}

/// No party appears twice among the entries of a tally.
pub open spec fn distinct_parties(t: Seq<(PartyView, nat)>) -> bool {
    forall|i: int, j: int| 0 <= i < j < t.len() ==> t[i].0 != t[j].0
}

pub proof fn lemma_tally_sum_push(t: Seq<(PartyView, nat)>, e: (PartyView, nat))
    ensures
        tally_sum(t.push(e)) == tally_sum(t) + e.1,
{
    assert(t.push(e).drop_last() =~= t);
}

pub proof fn lemma_tally_sum_add(t: Seq<(PartyView, nat)>, i: int, p: PartyView, v: nat)
    requires
        0 <= i < t.len(),
    ensures
        tally_sum(t.update(i, (p, t[i].1 + v))) == tally_sum(t) + v,
    decreases t.len(),
{
    let u = t.update(i, (p, t[i].1 + v));
    if i == t.len() - 1 {
        assert(u.drop_last() =~= t.drop_last());
    } else {
        lemma_tally_sum_add(t.drop_last(), i, p, v);
        assert(u.drop_last() =~= t.drop_last().update(i, (p, t[i].1 + v)));
    }
}

#[derive(Clone, Debug, PartialEq, Eq, Hash)]
pub struct Riding {
    name: String,
    id: String,
}

impl View for Riding {
    type V = RidingView;

    closed spec fn view(&self) -> RidingView {
        RidingView { name: self.name@, id: self.id@ }
    }
}

impl Riding {
    pub fn new(name: &str, id: &str) -> (r: Self)
        ensures
            r@ == (RidingView { name: name@, id: id@ }),
    {
        Self { name: name.to_owned(), id: id.to_owned() }
    }

    /// A copy of this riding with the same name and id.
    pub fn duplicate(&self) -> (r: Self)
        ensures
            r@ == self@,
    {
        Self { name: self.name.clone(), id: self.id.clone() }
    }

    pub fn get_name(&self) -> (r: &str)
        ensures
            r@ == self@.name,
    {
        self.name.as_str()
    }

    pub fn get_id(&self) -> (r: &str)
        ensures
            r@ == self@.id,
    {
        self.id.as_str()
    }
}

#[derive(Clone, Debug, Eq, Hash)]
pub struct Party {
    name: String,
    short_form: String,
}

impl View for Party {
    type V = PartyView;

    closed spec fn view(&self) -> PartyView {
        PartyView { name: self.name@, short_form: self.short_form@ }
    }
}

impl PartialEq for Party {
    fn eq(&self, other: &Party) -> (r: bool) {
        self.name == other.name && self.short_form == other.short_form
    }
}

impl vstd::std_specs::cmp::PartialEqSpecImpl for Party {
    open spec fn obeys_eq_spec() -> bool {
        true
    }

    open spec fn eq_spec(&self, other: &Party) -> bool {
        self@ == other@
    }
}

impl Party {
    pub fn new(name: &str, short_form: &str) -> (r: Self)
        ensures
            r@ == (PartyView { name: name@, short_form: short_form@ }),
    {
        Self { name: name.to_owned(), short_form: short_form.to_owned() }
    }

    /// Whether two parties have the same name and short form.
    pub fn same_as(&self, other: &Party) -> (r: bool)
        ensures
            r == (self@ == other@),
    {
        self.name == other.name && self.short_form == other.short_form
    }

    /// A copy of this party with the same name and short form.
    pub fn duplicate(&self) -> (r: Self)
        ensures
            r@ == self@,
    {
        Self { name: self.name.clone(), short_form: self.short_form.clone() }
    }

    pub fn get_name(&self) -> (r: &str)
        ensures
            r@ == self@.name,
    {
        self.name.as_str()
    }

    pub fn get_short_form(&self) -> (r: &str)
        ensures
            r@ == self@.short_form,
    {
        self.short_form.as_str()
    }
}

/// The registry of known parties. Each known party has a raw affiliation
/// label; any label that matches none of them resolves to the "other" party.
/// Tallies built from the registry have one entry per slot: the known parties
/// in registry order, then "other" in the last slot.
pub struct PartyList {
    labels: Vec<String>,
    parties: Vec<Party>,
    other_party: Party,
}

impl PartyList {
    /// The number of known parties, "other" not included.
    pub closed spec fn known_count(&self) -> nat {
        self.parties@.len()
    }

    /// The party of a slot: a known party, or "other" in slot `known_count()`.
    pub closed spec fn slot_party(&self, slot: int) -> PartyView {
        if slot < self.parties.len() {
            self.parties@[slot]@
        } else {
            self.other_party@
        }
    }

    /// The raw affiliation label of the known party in a slot.
    pub closed spec fn slot_label(&self, slot: int) -> Seq<char> {
        self.labels@[slot]@
    }

    /// Labels are distinct, and so are the short forms of all slots.
    pub closed spec fn wf(&self) -> bool {
        &&& self.labels.len() == self.parties.len()
        &&& self.parties.len() < usize::MAX
        &&& forall|i: int, j: int|
            0 <= i < j < self.labels.len() ==> self.labels@[i]@ != self.labels@[j]@
        &&& forall|i: int, j: int|
            0 <= i < j <= self.parties.len() ==> self.slot_party(i).short_form != self.slot_party(
                j,
            ).short_form
    }

    /// The slot that a raw affiliation label resolves to.
    pub open spec fn resolve(&self, label: Seq<char>) -> int {
        if exists|i: int| 0 <= i < self.known_count() && self.slot_label(i) == label {
            choose|i: int| 0 <= i < self.known_count() && self.slot_label(i) == label
        } else {
            self.known_count() as int
        }
    }

    /// The slot of the known party with the given short form, else "other".
    pub open spec fn resolve_short(&self, short_form: Seq<char>) -> int {
        if exists|i: int| 0 <= i < self.known_count() && self.slot_party(i).short_form == short_form {
            choose|i: int| 0 <= i < self.known_count() && self.slot_party(i).short_form == short_form
        } else {
            self.known_count() as int
        }
    }

    /// The zero tally: every slot's party with no votes.
    pub open spec fn zero_tally(&self) -> Seq<(PartyView, nat)> {
        Seq::new(self.known_count() + 1, |i: int| (self.slot_party(i), 0nat))
    }

    pub proof fn lemma_slots_distinct(&self)
        requires
            self.wf(),
        ensures
            forall|i: int, j: int|
                0 <= i < j <= self.known_count() ==> self.slot_party(i) != self.slot_party(j),
    {
    }

    /// Six national parties and an "Independent/Other" bucket.
    pub fn new() -> (r: Self)
        ensures
            r.wf(),
            r.known_count() == 6,
            r.slot_label(0) == "NDP-New Democratic Party"@,
            r.slot_party(0) == (PartyView { name: "New Democratic Party"@, short_form: "NDP"@ }),
            r.slot_label(1) == "Liberal"@,
            r.slot_party(1) == (PartyView { name: "Liberal"@, short_form: "LIB"@ }),
            r.slot_label(2) == "Conservative"@,
            r.slot_party(2) == (PartyView { name: "Conservative"@, short_form: "CON"@ }),
            r.slot_label(3) == "People's Party - PPC"@,
            r.slot_party(3) == (PartyView { name: "People's Party"@, short_form: "PPC"@ }),
            r.slot_label(4) == "Bloc Québécois"@,
            r.slot_party(4) == (PartyView { name: "Bloc Quebecois"@, short_form: "BQ"@ }),
            r.slot_label(5) == "Green Party"@,
            r.slot_party(5) == (PartyView { name: "Green Party"@, short_form: "GRN"@ }),
            r.slot_party(6) == (PartyView { name: "Independent/Other"@, short_form: "IND"@ }),
    {
        let labels: Vec<String> = vec![
            "NDP-New Democratic Party".to_owned(),
            "Liberal".to_owned(),
            "Conservative".to_owned(),
            "People's Party - PPC".to_owned(),
            "Bloc Québécois".to_owned(),
            "Green Party".to_owned(),
        ];
        let parties: Vec<Party> = vec![
            Party::new("New Democratic Party", "NDP"),
            Party::new("Liberal", "LIB"),
            Party::new("Conservative", "CON"),
            Party::new("People's Party", "PPC"),
            Party::new("Bloc Quebecois", "BQ"),
            Party::new("Green Party", "GRN"),
        ];
        let other_party = Party::new("Independent/Other", "IND");
        proof {
            reveal_strlit("NDP-New Democratic Party");
            reveal_strlit("Liberal");
            reveal_strlit("Conservative");
            reveal_strlit("People's Party - PPC");
            reveal_strlit("Bloc Québécois");
            reveal_strlit("Green Party");
            reveal_strlit("NDP");
            reveal_strlit("LIB");
            reveal_strlit("CON");
            reveal_strlit("PPC");
            reveal_strlit("BQ");
            reveal_strlit("GRN");
            reveal_strlit("IND");
        }
        let r = Self { labels, parties, other_party };
        proof {
            let firsts = seq!['N', 'L', 'C', 'P', 'B', 'G', 'I'];
            assert forall|i: int| 0 <= i <= 6 implies r.slot_party(i).short_form[0] == firsts[i]
                && (i < 6 ==> r.slot_label(i)[0] == firsts[i]) by {
                if i == 0 {
                } else if i == 1 {
                } else if i == 2 {
                } else if i == 3 {
                } else if i == 4 {
                } else if i == 5 {
                } else {
                }
            }
            assert forall|i: int, j: int| 0 <= i < j <= 6 implies firsts[i] != firsts[j] by {
                if i == 0 {
                } else if i == 1 {
                } else if i == 2 {
                } else if i == 3 {
                } else if i == 4 {
                } else {
                }
            }
            assert forall|i: int, j: int| 0 <= i < j < 6 implies r.labels@[i]@ != r.labels@[j]@ by {
                assert(r.slot_label(i)[0] != r.slot_label(j)[0]);
            }
            assert forall|i: int, j: int| 0 <= i < j <= 6 implies r.slot_party(i).short_form
                != r.slot_party(j).short_form by {
                assert(r.slot_party(i).short_form[0] != r.slot_party(j).short_form[0]);
            }
        }
        r
    }

    /// The slot that a raw affiliation label resolves to.
    pub fn slot_of_label(&self, label: &str) -> (r: usize)
        requires
            self.wf(),
        ensures
            r == self.resolve(label@),
            r <= self.known_count(),
    {
        let target = label.to_owned();
        let mut i: usize = 0;
        while i < self.labels.len()
            invariant
                self.wf(),
                target@ == label@,
                0 <= i <= self.labels.len(),
                forall|j: int| 0 <= j < i ==> self.slot_label(j) != label@,
            decreases self.labels.len() - i,
        {
            if self.labels[i] == target {
                assert(self.slot_label(i as int) == label@);
                return i;
            }
            i = i + 1;
        }
        i
    }

    /// The slot of the known party with the given short form, else "other".
    pub fn slot_of_short_form(&self, short_form: &str) -> (r: usize)
        requires
            self.wf(),
        ensures
            r == self.resolve_short(short_form@),
            r <= self.known_count(),
    {
        let target = short_form.to_owned();
        let mut i: usize = 0;
        while i < self.parties.len()
            invariant
                self.wf(),
                target@ == short_form@,
                0 <= i <= self.parties.len(),
                forall|j: int| 0 <= j < i ==> self.slot_party(j).short_form != short_form@,
            decreases self.parties.len() - i,
        {
            if self.parties[i].short_form == target {
                assert(self.slot_party(i as int).short_form == short_form@);
                return i;
            }
            i = i + 1;
        }
        i
    }

    /// A copy of the party in a slot.
    pub fn party_in_slot(&self, slot: usize) -> (r: Party)
        requires
            slot <= self.known_count(),
        ensures
            r@ == self.slot_party(slot as int),
    {
        if slot < self.parties.len() {
            self.parties[slot].duplicate()
        } else {
            self.other_party.duplicate()
        }
    }

    /// The canonical party of a raw affiliation label; never fails.
    pub fn get_party(&self, identifier: &str) -> (r: Party)
        requires
            self.wf(),
        ensures
            r@ == self.slot_party(self.resolve(identifier@)),
    {
        let slot = self.slot_of_label(identifier);
        self.party_in_slot(slot)
    }

    /// The known party with the given short form, else "other"; never fails.
    pub fn get_party_short(&self, identifier: &str) -> (r: Party)
        requires
            self.wf(),
        ensures
            r@ == self.slot_party(self.resolve_short(identifier@)),
    {
        let slot = self.slot_of_short_form(identifier);
        self.party_in_slot(slot)
    }

    /// A fresh tally with every slot's party at zero.
    pub fn get_party_vote(&self) -> (r: Vec<(Party, usize)>)
        requires
            self.wf(),
        ensures
            tally_view(r@) == self.zero_tally(),
            r@.len() == self.known_count() + 1,
            forall|i: int| 0 <= i < r@.len() ==> r@[i].1 == 0,
            distinct_parties(tally_view(r@)),
    {
        let mut party_vote: Vec<(Party, usize)> = Vec::new();
        let mut i: usize = 0;
        while i <= self.parties.len()
            invariant
                self.wf(),
                0 <= i <= self.parties.len() + 1,
                party_vote@.len() == i,
                forall|j: int| 0 <= j < i ==> party_vote@[j].1 == 0,
                forall|j: int| 0 <= j < i ==> party_vote@[j].0@ == self.slot_party(j),
            decreases self.parties.len() + 1 - i,
        {
            party_vote.push((self.party_in_slot(i), 0));
            i = i + 1;
        }
        assert(tally_view(party_vote@) =~= self.zero_tally());
        party_vote
    }
}

/// Every zero tally of a well-formed registry has one entry for each known
/// party and one for "other", all at zero, with no party twice.
pub proof fn zero_tally_covers_registry(party_list: &PartyList)
    requires
        party_list.wf(),
    ensures
        party_list.zero_tally().len() == party_list.known_count() + 1,
        forall|i: int|
            0 <= i < party_list.zero_tally().len() ==> party_list.zero_tally()[i].1 == 0,
        distinct_parties(party_list.zero_tally()),
        tally_sum(party_list.zero_tally()) == 0,
{
    party_list.lemma_slots_distinct();
    lemma_zero_sum(party_list.zero_tally());
}

proof fn lemma_zero_sum(t: Seq<(PartyView, nat)>)
    requires
        forall|i: int| 0 <= i < t.len() ==> t[i].1 == 0,
    ensures
        tally_sum(t) == 0,
    decreases t.len(),
{
    if t.len() > 0 {
        lemma_zero_sum(t.drop_last());
    }
}


proof fn lemma_tally_sum_prefix(t: Seq<(PartyView, nat)>, i: int)
    requires
        0 <= i < t.len(),
    ensures
        tally_sum(t.take(i + 1)) == tally_sum(t.take(i)) + t[i].1,
        tally_sum(t.take(i + 1)) <= tally_sum(t),
    decreases t.len(),
{
    assert(t.take(i + 1).drop_last() =~= t.take(i));
    if i + 1 == t.len() {
        assert(t.take(i + 1) =~= t);
    } else {
        lemma_tally_sum_prefix(t.drop_last(), i);
        assert(t.drop_last().take(i + 1) =~= t.take(i + 1));
    }
}

pub proof fn lemma_entry_le_sum(t: Seq<(PartyView, nat)>, i: int)
    requires
        0 <= i < t.len(),
    ensures
        t[i].1 <= tally_sum(t),
    decreases t.len(),
{
    if i < t.len() - 1 {
        lemma_entry_le_sum(t.drop_last(), i);
    }
}

/// The vote tally of one riding, with its total.
pub struct RidingResult {
    total_votes: usize,
    riding: Riding,
    votes: Vec<(Party, usize)>,
}

impl RidingResult {
    pub closed spec fn riding_view(&self) -> RidingView {
        self.riding@
    }

    pub closed spec fn votes_view(&self) -> Seq<(PartyView, nat)> {
        tally_view(self.votes@)
    }

    pub closed spec fn total(&self) -> nat {
        self.total_votes as nat
    }

    /// The stored total is the sum of the tally.
    pub closed spec fn wf(&self) -> bool {
        self.total_votes == tally_sum(tally_view(self.votes@))
    }

    pub fn new(riding: Riding, votes: Vec<(Party, usize)>) -> (r: Self)
        requires
            tally_sum(tally_view(votes@)) <= usize::MAX,
        ensures
            r.wf(),
            r.riding_view() == riding@,
            r.votes_view() == tally_view(votes@),
            r.total() == tally_sum(tally_view(votes@)),
    {
        let ghost t = tally_view(votes@);
        let mut total_votes: usize = 0;
        let mut i: usize = 0;
        while i < votes.len()
            invariant
                t == tally_view(votes@),
                tally_sum(t) <= usize::MAX,
                0 <= i <= votes.len(),
                total_votes == tally_sum(t.take(i as int)),
            decreases votes.len() - i,
        {
            proof {
                lemma_tally_sum_prefix(t, i as int);
            }
            total_votes = total_votes + votes[i].1;
            i = i + 1;
        }
        assert(t.take(votes.len() as int) =~= t);
        Self { total_votes, riding, votes }
    }

    pub fn get_riding(&self) -> (r: &Riding)
        ensures
            r@ == self.riding_view(),
    {
        &self.riding
    }

    pub fn get_votes(&self) -> (r: &Vec<(Party, usize)>)
        ensures
            tally_view(r@) == self.votes_view(),
    {
        &self.votes
    }

    pub fn get_total_votes(&self) -> (r: usize)
        ensures
            r == self.total(),
    {
        self.total_votes
    }
}

/// A well-formed riding result's total is the sum of its votes over all parties.
pub proof fn total_votes_is_vote_sum(result: &RidingResult)
    requires
        result.wf(),
    ensures
        result.total() == tally_sum(result.votes_view()),
{
}

/// One riding's outcome: the riding and its winner.
pub struct FinalRidingResult {
    riding: Riding,
    winner: Party,
}

impl FinalRidingResult {
    pub closed spec fn riding_view(&self) -> RidingView {
        self.riding@
    }

    pub closed spec fn winner_view(&self) -> PartyView {
        self.winner@
    }

    pub fn new(riding: &Riding, winner: &Party) -> (r: Self)
        ensures
            r.riding_view() == riding@,
            r.winner_view() == winner@,
    {
        Self { riding: riding.duplicate(), winner: winner.duplicate() }
    }

    pub fn get_riding(&self) -> (r: &Riding)
        ensures
            r@ == self.riding_view(),
    {
        &self.riding
    }

    pub fn get_winner(&self) -> (r: &Party)
        ensures
            r@ == self.winner_view(),
    {
        &self.winner
    }
}

/// The winners of a sequence of riding outcomes, in order.
pub open spec fn winners_of(results: Seq<FinalRidingResult>) -> Seq<PartyView> {
    results.map_values(|r: FinalRidingResult| r.winner_view())
}

/// The index of the first entry of a tally for party `p`, searching from
/// index `i`; the tally's length if there is none.
pub open spec fn entry_from(t: Seq<(PartyView, nat)>, p: PartyView, i: int) -> int
    decreases t.len() - i,
{
    if i >= t.len() {
        t.len() as int
    } else if t[i].0 == p {
        i
    } else {
        entry_from(t, p, i + 1)
    }
}

/// One more seat for a party: its entry goes up by one, or it gets a new
/// entry with one seat if the tally has none for it.
pub open spec fn add_seat(t: Seq<(PartyView, nat)>, p: PartyView) -> Seq<(PartyView, nat)> {
    let i = entry_from(t, p, 0);
    if i < t.len() {
        t.update(i, (p, t[i].1 + 1))
    } else {
        t.push((p, 1))
    }
}

/// The seat tally after giving one seat to each winner in turn.
pub open spec fn seat_tally(start: Seq<(PartyView, nat)>, winners: Seq<PartyView>) -> Seq<
    (PartyView, nat),
>
    decreases winners.len(),
{
    if winners.len() == 0 {
        start
    } else {
        add_seat(seat_tally(start, winners.drop_last()), winners.last())
    }
}

proof fn lemma_entry_from_bounds(t: Seq<(PartyView, nat)>, p: PartyView, i: int)
    requires
        0 <= i,
    ensures
        i <= entry_from(t, p, i) || entry_from(t, p, i) == t.len(),
        entry_from(t, p, i) <= t.len(),
    decreases t.len() - i,
{
    if i < t.len() && t[i].0 != p {
        lemma_entry_from_bounds(t, p, i + 1);
    }
}

proof fn lemma_seat_tally_sum(start: Seq<(PartyView, nat)>, winners: Seq<PartyView>)
    ensures
        tally_sum(seat_tally(start, winners)) == tally_sum(start) + winners.len(),
    decreases winners.len(),
{
    if winners.len() > 0 {
        let t = seat_tally(start, winners.drop_last());
        let p = winners.last();
        lemma_seat_tally_sum(start, winners.drop_last());
        assert(seat_tally(start, winners) == add_seat(t, p));
        let i = entry_from(t, p, 0);
        if 0 <= i < t.len() {
            lemma_tally_sum_add(t, i, p, 1);
        } else {
            lemma_entry_from_bounds(t, p, 0);
            lemma_tally_sum_push(t, (p, 1));
        }
    }
}

/// The seat counts of the whole election, and the outcome of each riding.
pub struct FinalElectionResult {
    seat_counts: Vec<(Party, usize)>,
    riding_results: Vec<FinalRidingResult>,
}

impl FinalElectionResult {
    pub closed spec fn seats_view(&self) -> Seq<(PartyView, nat)> {
        tally_view(self.seat_counts@)
    }

    pub closed spec fn results_view(&self) -> Seq<FinalRidingResult> {
        self.riding_results@
    }

    /// Counts one seat for the winner of each riding, starting from the
    /// registry's zero tally.
    pub fn new(final_riding_results: Vec<FinalRidingResult>, party_list: &PartyList) -> (r: Self)
        requires
            party_list.wf(),
        ensures
            r.seats_view() == seat_tally(party_list.zero_tally(), winners_of(final_riding_results@)),
            tally_sum(r.seats_view()) == final_riding_results@.len(),
            distinct_parties(r.seats_view()),
            r.results_view() == final_riding_results@,
    {
        let ghost zero = party_list.zero_tally();
        let ghost winners = winners_of(final_riding_results@);
        let mut result: Vec<(Party, usize)> = party_list.get_party_vote();
        proof {
            zero_tally_covers_registry(party_list);
        }
        let mut k: usize = 0;
        while k < final_riding_results.len()
            invariant
                zero == party_list.zero_tally(),
                winners == winners_of(final_riding_results@),
                0 <= k <= final_riding_results.len(),
                tally_view(result@) == seat_tally(zero, winners.take(k as int)),
                distinct_parties(tally_view(result@)),
                tally_sum(tally_view(result@)) == k,
            decreases final_riding_results.len() - k,
        {
            let winner = &final_riding_results[k].winner;
            let ghost t = tally_view(result@);
            let ghost p = winner@;
            assert(winners.take(k + 1).drop_last() =~= winners.take(k as int));
            assert(winners.take(k + 1).last() == p);
            let mut j: usize = 0;
            while j < result.len()
                invariant
                    t == tally_view(result@),
                    p == winner@,
                    0 <= j <= result.len(),
                    forall|i: int| 0 <= i < j ==> t[i].0 != p,
                    entry_from(t, p, 0) == entry_from(t, p, j as int),
                ensures
                    t == tally_view(result@),
                    p == winner@,
                    0 <= j <= result.len(),
                    forall|i: int| 0 <= i < j ==> t[i].0 != p,
                    entry_from(t, p, 0) == entry_from(t, p, j as int),
                    j < result.len() ==> t[j as int].0 == p,
                decreases result.len() - j,
            {
                let same = result[j].0.same_as(winner);
                if same {
                    break;
                }
                j = j + 1;
            }
            if j < result.len() {
                assert(t[j as int].0 == p);
                let seats = result[j].1;
                proof {
                    lemma_entry_le_sum(t, j as int);
                    lemma_tally_sum_add(t, j as int, p, 1);
                }
                result.set(j, (winner.duplicate(), seats + 1));
                assert(tally_view(result@) =~= t.update(j as int, (p, t[j as int].1 + 1)));
            } else {
                proof {
                    lemma_tally_sum_push(t, (p, 1));
                }
                result.push((winner.duplicate(), 1));
                assert(tally_view(result@) =~= t.push((p, 1)));
            }
            k = k + 1;
        }
        assert(winners.take(final_riding_results.len() as int) =~= winners);
        FinalElectionResult { seat_counts: result, riding_results: final_riding_results }
    }

    pub fn get_seat_counts(&self) -> (r: &Vec<(Party, usize)>)
        ensures
            tally_view(r@) == self.seats_view(),
    {
        &self.seat_counts
    }

    pub fn get_riding_results(&self) -> (r: &Vec<FinalRidingResult>)
        ensures
            r@ == self.results_view(),
    {
        &self.riding_results
    }
}

/// The seat counts of a summary add up to the number of ridings summarized.
pub proof fn seats_sum_to_ridings(party_list: &PartyList, results: Seq<FinalRidingResult>)
    requires
        party_list.wf(),
    ensures
        tally_sum(seat_tally(party_list.zero_tally(), winners_of(results))) == results.len(),
{
    zero_tally_covers_registry(party_list);
    lemma_seat_tally_sum(party_list.zero_tally(), winners_of(results));
}

/// Two summaries of the same riding outcomes over the same registry have the
/// same seat counts.
pub proof fn summary_is_repeatable(
    party_list: &PartyList,
    results: Seq<FinalRidingResult>,
    first: &FinalElectionResult,
    second: &FinalElectionResult,
)
    requires
        first.seats_view() == seat_tally(party_list.zero_tally(), winners_of(results)),
        second.seats_view() == seat_tally(party_list.zero_tally(), winners_of(results)),
    ensures
        first.seats_view() == second.seats_view(),
{
}

} // verus!
