//! Favourites: the most probable party of each constituency, and how many
//! constituencies each party leads.
use crate::model::{ConstituencyStatus, Party};
use crate::party::{PartyId, PartyName};
use crate::ranking::{has_place, lemma_ranking_exists, outranks, ranking_of};
use crate::standing::{
    in_standing_order, lemma_standing_order_is_unique, lemma_standings_in_order, rank_standings,
    standings_view,
};
use crate::tally::{all_positive, count_in, one_entry_each, Tally};
use vstd::prelude::*;

verus! {

/// Whether the party at place `at` is the favourite: no party of the list is
/// more probable, and every party listed before it is less probable.
pub open spec fn is_favourite(parties: Seq<Party>, at: int) -> bool {
    &&& 0 <= at < parties.len()
    &&& forall|other: int|
        0 <= other < parties.len() ==> (#[trigger] parties[other]).probability
            <= parties[at].probability
    &&& forall|earlier: int|
        0 <= earlier < at ==> (#[trigger] parties[earlier]).probability < parties[at].probability
}

/// The favourite among the parties: the most probable, and of several that
/// are equally so, the one that is listed first. `None` where there are no
/// parties.
pub open spec fn favourite_of(parties: Seq<Party>) -> Option<PartyId> {
    if parties.len() == 0 {
        None
    } else {
        Some(parties[choose|at: int| is_favourite(parties, at)].name@)
    }
}

/// A list of parties has one favourite at most.
pub proof fn lemma_favourite_is_unique(parties: Seq<Party>, x: int, y: int)
    requires
        is_favourite(parties, x),
        is_favourite(parties, y),
    ensures
        x == y,
{
    if x < y {
        assert(parties[x].probability < parties[y].probability);
    }
    if y < x {
        assert(parties[y].probability < parties[x].probability);
    }
}

/// The favourite is the party that comes first when the parties are ranked
/// by probability.
pub proof fn lemma_favourite_ranks_first(parties: &Vec<Party>, at: int)
    requires
        is_favourite(parties@, at),
    ensures
        ranking_of(parties)[0] == at,
{
    lemma_ranking_exists(parties);
    let order = ranking_of(parties);
    let first = order[0] as int;
    if first != at {
        assert(has_place(order, at));
        let place = choose|place: int| 0 <= place < order.len() && order[place] == at;
        assert(outranks(parties, order[0] as int, order[place] as int));
    }
}

/// The number of constituencies whose favourite is `party`.
pub open spec fn constituencies_led(
    constituencies: Seq<ConstituencyStatus>,
    party: PartyId,
) -> int
    decreases constituencies.len(),
{
    if constituencies.len() == 0 {
        0
    } else {
        constituencies_led(constituencies.drop_last(), party) + if favourite_of(
            constituencies.last().parties@,
        ) == Some(party) {
            1int
        } else {
            0int
        }
    }
}

/// The number of constituencies that have a favourite, which are those that
/// have a party.
pub open spec fn constituencies_with_parties(constituencies: Seq<ConstituencyStatus>) -> int
    decreases constituencies.len(),
{
    if constituencies.len() == 0 {
        0
    } else {
        let counts: int = if constituencies.last().parties@.len() > 0 {
            1
        } else {
            0
        };
        constituencies_with_parties(constituencies.drop_last()) + counts
    }
}

/// No more constituencies have a favourite than there are constituencies.
pub proof fn lemma_constituencies_with_parties_bound(constituencies: Seq<ConstituencyStatus>)
    ensures
        0 <= constituencies_with_parties(constituencies) <= constituencies.len(),
    decreases constituencies.len(),
{
    if constituencies.len() > 0 {
        lemma_constituencies_with_parties_bound(constituencies.drop_last());
    }
}

/// Whether `ranked` is the ranking of the favourites: it has one entry for
/// each party that leads a constituency, with the number of constituencies
/// that it leads, and none for any other; the party that leads most comes
/// first, and of two that lead equally many the one that comes first in the
/// order of parties.
pub open spec fn is_favourite_ranking(
    constituencies: Seq<ConstituencyStatus>,
    ranked: Seq<(PartyId, int)>,
) -> bool {
    &&& in_standing_order(ranked)
    &&& one_entry_each(ranked)
    &&& all_positive(ranked)
    &&& forall|party: PartyId|
        count_in(ranked, party) == constituencies_led(constituencies, party)
}

/// The constituencies fix the ranking of the favourites: whatever meets
/// [`is_favourite_ranking`] for them is the same list, place for place,
/// however many constituencies there are and however often it is worked out.
pub proof fn lemma_favourite_ranking_is_determined(
    constituencies: Seq<ConstituencyStatus>,
    x: Seq<(PartyId, int)>,
    y: Seq<(PartyId, int)>,
)
    requires
        is_favourite_ranking(constituencies, x),
        is_favourite_ranking(constituencies, y),
    ensures
        x == y,
{
    lemma_standing_order_is_unique(x, y);
}

/// The place of the favourite among the parties: the most probable one, and
/// of several that are equally so, the first. `None` where there are no
/// parties.
pub fn favourite(parties: &Vec<Party>) -> (found: Option<usize>)
    ensures
        match found {
            Some(at) => is_favourite(parties@, at as int) && favourite_of(parties@) == Some(
                parties@[at as int].name@,
            ),
            None => parties@.len() == 0 && favourite_of(parties@) is None,
        },
{
    if parties.len() == 0 {
        return None;
    }
    let mut best: usize = 0;
    let mut at: usize = 1;
    while at < parties.len()
        invariant
            1 <= at <= parties.len(),
            best < at,
            forall|other: int|
                0 <= other < at ==> (#[trigger] parties@[other]).probability
                    <= parties@[best as int].probability,
            forall|earlier: int|
                0 <= earlier < best ==> (#[trigger] parties@[earlier]).probability
                    < parties@[best as int].probability,
        decreases parties.len() - at,
    {
        if parties[at].probability > parties[best].probability {
            best = at;
        }
        at += 1;
    }
    proof {
        assert(is_favourite(parties@, best as int));
        let chosen = choose|at: int| is_favourite(parties@, at);
        lemma_favourite_is_unique(parties@, best as int, chosen);
    }
    Some(best)
}

/// Counts, for each party, the constituencies of which it is the favourite.
/// A constituency without parties has no favourite and counts for nobody.
pub fn get_stats(constituencies: &Vec<ConstituencyStatus>) -> (party_counts: Tally)
    ensures
        party_counts.well_formed(),
        forall|party: PartyId|
            #![trigger party_counts.count(party)]
            #![trigger constituencies_led(constituencies@, party)]
            party_counts.count(party) == constituencies_led(constituencies@, party),
        party_counts.total() == constituencies_with_parties(constituencies@),
{
    let mut party_counts = Tally::new();
    let mut at: usize = 0;
    assert(constituencies@.take(0) =~= Seq::<ConstituencyStatus>::empty());
    while at < constituencies.len()
        invariant
            at <= constituencies.len(),
            party_counts.well_formed(),
            forall|party: PartyId|
                party_counts.count(party) == constituencies_led(
                    constituencies@.take(at as int),
                    party,
                ),
            party_counts.total() == constituencies_with_parties(constituencies@.take(at as int)),
        decreases constituencies.len() - at,
    {
        proof {
            assert(constituencies@.take(at + 1).drop_last() =~= constituencies@.take(at as int));
            assert(constituencies@.take(at + 1).last() == constituencies@[at as int]);
            lemma_constituencies_with_parties_bound(constituencies@.take(at as int));
        }
        let parties = &constituencies[at].parties;
        match favourite(parties) {
            Some(winner) => {
                party_counts.add(&parties[winner].name);
            },
            None => {},
        }
        at += 1;
    }
    assert(constituencies@.take(constituencies.len() as int) =~= constituencies@);
    party_counts
}

/// The parties that are favourite somewhere, each with the number of its
/// constituencies: the party with most constituencies first, and of two with
/// equally many the one that comes first in the order of parties.
pub fn winning_constituencies(party_counts: &Tally) -> (ranked: Vec<(PartyName, usize)>)
    requires
        party_counts.well_formed(),
    ensures
        in_standing_order(standings_view(ranked@)),
        one_entry_each(standings_view(ranked@)),
        all_positive(standings_view(ranked@)),
        forall|party: PartyId|
            #![trigger count_in(standings_view(ranked@), party)]
            #![trigger party_counts.count(party)]
            count_in(standings_view(ranked@), party) == party_counts.count(party),
{
    let entries = party_counts.entries();
    proof {
        assert(standings_view(entries@) =~= party_counts@);
        lemma_standings_in_order(entries);
    }
    rank_standings(entries)
}

} // verus!
