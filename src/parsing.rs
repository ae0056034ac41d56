use vstd::prelude::*;

use crate::datatypes::{
    lemma_entry_le_sum, lemma_tally_sum_add, tally_sum, tally_view, zero_tally_covers_registry,
    Party, PartyList, PartyView, Riding, RidingResult, RidingView,
};

verus! {

/// One candidate's votes at one polling station.
pub struct ResultatsBureauRecord {
    pub electoral_district_number: String,
    pub electoral_district_name: String,
    pub polling_station_number: String,
    pub votes: usize,
    pub party_name: String,
}

/// Why station records could not be turned into a riding result.
#[derive(Debug)]
pub struct ParsingError {
    reason: String,
}

impl ParsingError {
    pub closed spec fn reason_view(&self) -> Seq<char> {
        self.reason@
    }

    pub fn new(message: &str) -> (r: Self)
        ensures
            r.reason_view() == message@,
    {
        Self { reason: message.to_owned() }
    }

    pub fn reason(&self) -> (r: &str)
        ensures
            r@ == self.reason_view(),
    {
        self.reason.as_str()
    }
}

/// The votes of the first `k` records whose affiliation resolves to `slot`.
pub open spec fn slot_votes(
    party_list: PartyList,
    records: Seq<ResultatsBureauRecord>,
    slot: int,
    k: int,
) -> nat
    decreases k,
{
    if k <= 0 {
        0
    } else {
        slot_votes(party_list, records, slot, k - 1) + if party_list.resolve(
            records[k - 1].party_name@,
        ) == slot {
            records[k - 1].votes as nat
        } else {
            0
        }
    }
}

/// The votes of the first `k` records.
pub open spec fn record_total(records: Seq<ResultatsBureauRecord>, k: int) -> nat
    decreases k,
{
    if k <= 0 {
        0
    } else {
        record_total(records, k - 1) + records[k - 1].votes as nat
    }
}

/// The riding tally of a set of station records: each slot's party with the
/// votes of the records that resolve to it.
pub open spec fn station_tally(party_list: PartyList, records: Seq<ResultatsBureauRecord>) -> Seq<
    (PartyView, nat),
> {
    Seq::new(
        party_list.known_count() + 1,
        |s: int| (party_list.slot_party(s), slot_votes(party_list, records, s, records.len() as int)),
    )
}

proof fn lemma_record_total_prefix(records: Seq<ResultatsBureauRecord>, m: int, k: int)
    requires
        0 <= k <= m,
    ensures
        record_total(records, k) <= record_total(records, m),
    decreases m - k,
{
    if k < m {
        lemma_record_total_prefix(records, m - 1, k);
    }
}

/// Adds up the station records of one riding. Fails when there are none,
/// since the riding is known only from its records.
pub fn parse_as_riding(raw_results: Vec<ResultatsBureauRecord>, party_list: &PartyList) -> (r:
    Result<RidingResult, ParsingError>)
    requires
        party_list.wf(),
        record_total(raw_results@, raw_results@.len() as int) <= usize::MAX,
    ensures
        r is Err <==> raw_results@.len() == 0,
        r matches Ok(result) ==> {
            &&& result.wf()
            &&& result.votes_view() == station_tally(*party_list, raw_results@)
            &&& result.riding_view() == (RidingView {
                name: raw_results@[0].electoral_district_name@,
                id: raw_results@[0].electoral_district_number@,
            })
            &&& result.total() == record_total(raw_results@, raw_results@.len() as int)
        },
{
    if raw_results.len() == 0 {
        return Err(ParsingError::new("CSV file was empty"));
    }
    let ghost records = raw_results@;
    let ghost n = party_list.known_count();
    let mut votes: Vec<(Party, usize)> = party_list.get_party_vote();
    proof {
        zero_tally_covers_registry(party_list);
        assert forall|s: int| 0 <= s <= n implies (#[trigger] votes@[s]).0@ == party_list.slot_party(
            s,
        ) by {
            assert(tally_view(votes@)[s] == party_list.zero_tally()[s]);
        }
    }
    let mut k: usize = 0;
    while k < raw_results.len()
        invariant
            records == raw_results@,
            party_list.wf(),
            n == party_list.known_count(),
            0 <= k <= raw_results.len(),
            record_total(records, records.len() as int) <= usize::MAX,
            votes@.len() == n + 1,
            forall|s: int| 0 <= s <= n ==> (#[trigger] votes@[s]).0@ == party_list.slot_party(s),
            forall|s: int|
                0 <= s <= n ==> (#[trigger] votes@[s]).1 == slot_votes(*party_list, records, s, k as int),
            tally_sum(tally_view(votes@)) == record_total(records, k as int),
        decreases raw_results.len() - k,
    {
        let station = &raw_results[k];
        let slot = party_list.slot_of_label(station.party_name.as_str());
        let ghost t = tally_view(votes@);
        proof {
            lemma_record_total_prefix(records, records.len() as int, k + 1);
            lemma_entry_le_sum(t, slot as int);
            lemma_tally_sum_add(t, slot as int, t[slot as int].0, station.votes as nat);
        }
        let current = votes[slot].1;
        let party = votes[slot].0.duplicate();
        votes.set(slot, (party, current + station.votes));
        assert(tally_view(votes@) =~= t.update(slot as int, (t[slot as int].0, t[slot as int].1 + station.votes as nat)));
        k = k + 1;
    }
    assert(tally_view(votes@) =~= station_tally(*party_list, records));
    let first_line = &raw_results[0];
    let riding = Riding::new(
        first_line.electoral_district_name.as_str(),
        first_line.electoral_district_number.as_str(),
    );
    Ok(RidingResult::new(riding, votes))
}

} // verus!
