//! The figures of one constituency.
use crate::model::{ConstituencyStats, Party};
use crate::party::{PartyId, PartyName};
use crate::ranking::{is_ranking, lemma_ranking_exists, outranks, rank, ranking_of, Contest};
use vstd::prelude::*;

verus! {

/// The parties of a constituency compete on probability: the more probable
/// party is the better one.
impl Contest for Vec<Party> {
    open spec fn entrants(&self) -> usize {
        self.len()
    }

    open spec fn beats(&self, a: int, b: int) -> bool {
        self@[a].probability > self@[b].probability
    }

    fn size(&self) -> (n: usize) {
        self.len()
    }

    fn decide(&self, a: usize, b: usize) -> (better: bool) {
        self[a].probability > self[b].probability
    }

    proof fn beats_is_asymmetric(&self, a: int, b: int) {
    }

    proof fn beats_is_negatively_transitive(&self, a: int, b: int, c: int) {
    }
}

/// The probability of the first entry of `parties` that is for `party`, if
/// there is one.
pub open spec fn probability_of(parties: Seq<Party>, party: PartyId) -> Option<u64>
    decreases parties.len(),
{
    if parties.len() == 0 {
        None
    } else if parties.first().name@ == party {
        Some(parties.first().probability)
    } else {
        probability_of(parties.drop_first(), party)
    }
}

/// The probability of the party that has the given place when the parties
/// are ranked by probability, the most probable first and, among equals, the
/// one that is listed first: place 0 is the favourite's. `None` where there
/// are not that many parties.
pub open spec fn probability_at_place(parties: &Vec<Party>, place: int) -> Option<u64> {
    if 0 <= place < parties@.len() {
        Some(parties@[ranking_of(parties)[place] as int].probability)
    } else {
        None
    }
}

/// By how much the favourite's probability exceeds the runner-up's; `None`
/// where there are fewer than two parties.
pub open spec fn favourite_lead(parties: &Vec<Party>) -> Option<u64> {
    if parties@.len() >= 2 {
        Some(
            (probability_at_place(parties, 0)->0 - probability_at_place(parties, 1)->0) as u64,
        )
    } else {
        None
    }
}

/// The figures of a constituency with the given parties.
pub open spec fn constituency_stats(parties: &Vec<Party>) -> ConstituencyStats {
    ConstituencyStats {
        labour_probability: probability_of(parties@, PartyName::Labour@),
        conservative_probability: probability_of(parties@, PartyName::Conservatives@),
        lib_dem_probability: probability_of(parties@, PartyName::LiberalDemocrats@),
        green_probability: probability_of(parties@, PartyName::Green@),
        reform_probability: probability_of(parties@, PartyName::Reform@),
        other_probability: probability_of(parties@, PartyName::Other@),
        favourite_lead: favourite_lead(parties),
        third_place_probability: probability_at_place(parties, 2),
    }
}

/// A party that has an earlier place in the ranking is at least as probable
/// as one that has a later place.
pub proof fn lemma_places_descend(parties: &Vec<Party>, earlier: int, later: int)
    requires
        0 <= earlier <= later < parties@.len(),
    ensures
        probability_at_place(parties, earlier)->0 >= probability_at_place(parties, later)->0,
{
    lemma_ranking_exists(parties);
    let order = ranking_of(parties);
    if earlier < later {
        assert(outranks(parties, order[earlier] as int, order[later] as int));
    }
}

/// The favourite's lead is never negative: it is the favourite's
/// probability less the runner-up's, which is no greater.
pub proof fn lemma_favourite_lead_is_not_negative(parties: &Vec<Party>)
    requires
        parties@.len() >= 2,
    ensures
        probability_at_place(parties, 0)->0 >= probability_at_place(parties, 1)->0,
        favourite_lead(parties)->0 == probability_at_place(parties, 0)->0 - probability_at_place(
            parties,
            1,
        )->0,
        favourite_lead(parties)->0 >= 0,
{
    lemma_places_descend(parties, 0, 1);
}

/// The probability that the list gives `party`: that of the first entry for
/// it. Absent where the party does not stand.
pub fn find_probability(parties: &Vec<Party>, party: &PartyName) -> (probability: Option<u64>)
    ensures
        probability == probability_of(parties@, party@),
{
    let mut i: usize = 0;
    assert(parties@.skip(0) =~= parties@);
    while i < parties.len()
        invariant
            i <= parties.len(),
            probability_of(parties@, party@) == probability_of(parties@.skip(i as int), party@),
        decreases parties.len() - i,
    {
        assert(parties@.skip(i as int).first() == parties@[i as int]);
        if parties[i].name == *party {
            return Some(parties[i].probability);
        }
        assert(parties@.skip(i as int).drop_first() =~= parties@.skip(i + 1));
        i += 1;
    }
    None
}

/// The figures of a constituency: the probability of each headline party
/// that stands there, the favourite's lead over the runner-up, and the
/// probability of the party in third place.
pub fn make_constituency_stats(parties: &Vec<Party>) -> (stats: ConstituencyStats)
    ensures
        stats == constituency_stats(parties),
        is_ranking(parties, ranking_of(parties)),
        stats.favourite_lead matches Some(lead) ==> lead == probability_at_place(parties, 0)->0
            - probability_at_place(parties, 1)->0,
{
    let order = rank(parties);
    let favourite_lead = if order.len() >= 2 {
        proof {
            lemma_places_descend(parties, 0, 1);
        }
        Some(parties[order[0]].probability - parties[order[1]].probability)
    } else {
        None
    };
    let third_place_probability = if order.len() >= 3 {
        Some(parties[order[2]].probability)
    } else {
        None
    };
    ConstituencyStats {
        labour_probability: find_probability(parties, &PartyName::Labour),
        conservative_probability: find_probability(parties, &PartyName::Conservatives),
        lib_dem_probability: find_probability(parties, &PartyName::LiberalDemocrats),
        green_probability: find_probability(parties, &PartyName::Green),
        reform_probability: find_probability(parties, &PartyName::Reform),
        other_probability: find_probability(parties, &PartyName::Other),
        favourite_lead,
        third_place_probability,
    }
}

} // verus!
