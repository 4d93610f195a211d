//! The seats of each party over all simulated elections.
use crate::party::{PartyId, PartyName};
use crate::tally::{has_entry, lemma_tally_counts, Tally};
use vstd::prelude::*;

verus! {

/// The seats of `party` in each of the elections, in the order of the
/// elections; zero where it won none.
pub open spec fn seats_of(results: Seq<Tally>, party: PartyId) -> Seq<usize> {
    Seq::new(results.len(), |trial: int| results[trial].count(party) as usize)
}

/// Whether `party` won a seat in one election at least.
pub open spec fn wins_somewhere(results: Seq<Tally>, party: PartyId) -> bool {
    exists|trial: int| 0 <= trial < results.len() && (#[trigger] results[trial]).count(party) >= 1
}

/// Whether every result is a well-formed tally.
pub open spec fn all_well_formed(results: Seq<Tally>) -> bool {
    forall|trial: int| 0 <= trial < results.len() ==> (#[trigger] results[trial]).well_formed()
}

/// Whether one of `parties` is `party`.
pub open spec fn names(parties: Seq<PartyName>, party: PartyId) -> bool {
    exists|k: int| 0 <= k < parties.len() && (#[trigger] parties[k])@ == party
}

/// Whether `parties` names every party that has one of the first `entries`
/// entries of `tally`.
spec fn covers_entries(parties: Seq<PartyName>, tally: &Tally, entries: int) -> bool {
    forall|e: int| 0 <= e < entries ==> names(parties, (#[trigger] tally@[e]).0)
}

/// Whether `parties` names every party that has an entry in one of the
/// first `trials` elections.
spec fn covers_trials(parties: Seq<PartyName>, results: Seq<Tally>, trials: int) -> bool {
    forall|trial: int|
        0 <= trial < trials ==> covers_entries(
            parties,
            &#[trigger] results[trial],
            results[trial]@.len() as int,
        )
}

/// Whether no party is named twice.
pub open spec fn named_once(parties: Seq<PartyName>) -> bool {
    forall|i: int, j: int|
        0 <= i < j < parties.len() ==> (#[trigger] parties[i])@ != (#[trigger] parties[j])@
}

/// A party that is named stays named when more parties are added.
proof fn lemma_still_names(before: Seq<PartyName>, after: Seq<PartyName>, party: PartyId)
    requires
        names(before, party),
        before.len() <= after.len(),
        forall|k: int| 0 <= k < before.len() ==> #[trigger] after[k] == before[k],
    ensures
        names(after, party),
{
    let k = choose|k: int| 0 <= k < before.len() && (#[trigger] before[k])@ == party;
    assert(after[k]@ == party);
}

/// A longer list of parties covers what the shorter one covered.
proof fn lemma_still_covers(
    before: Seq<PartyName>,
    after: Seq<PartyName>,
    results: Seq<Tally>,
    trials: int,
)
    requires
        covers_trials(before, results, trials),
        before.len() <= after.len(),
        forall|k: int| 0 <= k < before.len() ==> #[trigger] after[k] == before[k],
    ensures
        covers_trials(after, results, trials),
{
    assert forall|trial: int| 0 <= trial < trials implies covers_entries(
        after,
        &#[trigger] results[trial],
        results[trial]@.len() as int,
    ) by {
        let tally = &results[trial];
        assert(covers_entries(before, tally, tally@.len() as int));
        assert forall|e: int| 0 <= e < tally@.len() implies names(
            after,
            (#[trigger] tally@[e]).0,
        ) by {
            lemma_still_names(before, after, tally@[e].0);
        }
    }
}

/// Whether one of `parties` is `party`.
fn lists(parties: &Vec<PartyName>, party: &PartyName) -> (found: bool)
    ensures
        found == names(parties@, party@),
{
    let mut k: usize = 0;
    while k < parties.len()
        invariant
            k <= parties.len(),
            forall|earlier: int| 0 <= earlier < k ==> (#[trigger] parties@[earlier])@ != party@,
        decreases parties.len() - k,
    {
        if parties[k] == *party {
            return true;
        }
        k += 1;
    }
    false
}

/// The parties that won a seat in some election, each once.
pub fn parties_of(results: &Vec<Tally>) -> (parties: Vec<PartyName>)
    requires
        all_well_formed(results@),
    ensures
        named_once(parties@),
        forall|k: int|
            0 <= k < parties@.len() ==> wins_somewhere(results@, (#[trigger] parties@[k])@),
        forall|party: PartyId| #[trigger]
            wins_somewhere(results@, party) ==> names(parties@, party),
{
    let mut parties: Vec<PartyName> = Vec::new();
    let mut trial: usize = 0;
    while trial < results.len()
        invariant
            trial <= results.len(),
            all_well_formed(results@),
            named_once(parties@),
            forall|k: int|
                0 <= k < parties@.len() ==> wins_somewhere(results@, (#[trigger] parties@[k])@),
            covers_trials(parties@, results@, trial as int),
        decreases results.len() - trial,
    {
        let tally = &results[trial];
        let entries = tally.entries();
        let mut e: usize = 0;
        while e < entries.len()
            invariant
                e <= entries.len(),
                trial < results.len(),
                all_well_formed(results@),
                *tally == results@[trial as int],
                entries@.len() == tally@.len(),
                forall|i: int|
                    0 <= i < entries@.len() ==> (#[trigger] entries@[i]).0@ == tally@[i].0
                        && entries@[i].1 == tally@[i].1,
                named_once(parties@),
                forall|k: int|
                    0 <= k < parties@.len() ==> wins_somewhere(results@, (#[trigger] parties@[k])@),
                covers_trials(parties@, results@, trial as int),
                covers_entries(parties@, tally, e as int),
            decreases entries.len() - e,
        {
            let party = &entries[e].0;
            let ghost before = parties@;
            assert(tally@[e as int].0 == party@);
            if !lists(&parties, party) {
                proof {
                    assert(has_entry(tally@, party@));
                    lemma_tally_counts(tally, party@);
                    assert(results@[trial as int].count(party@) >= 1);
                    assert(wins_somewhere(results@, party@));
                }
                parties.push(party.clone());
                proof {
                    let after = parties@;
                    assert forall|k: int| 0 <= k < before.len() implies #[trigger] after[k]
                        == before[k] by {}
                    assert(after[before.len() as int]@ == party@);
                    lemma_still_covers(before, after, results@, trial as int);
                    assert forall|i: int| 0 <= i < e implies names(
                        after,
                        (#[trigger] tally@[i]).0,
                    ) by {
                        lemma_still_names(before, after, tally@[i].0);
                    }
                }
            }
            assert(names(parties@, tally@[e as int].0));
            e += 1;
        }
        trial += 1;
    }
    proof {
        assert forall|party: PartyId| #[trigger] wins_somewhere(results@, party) implies names(
            parties@,
            party,
        ) by {
            let t = choose|t: int|
                0 <= t < results@.len() && (#[trigger] results@[t]).count(party) >= 1;
            lemma_tally_counts(&results@[t], party);
            let e = choose|e: int|
                0 <= e < results@[t]@.len() && (#[trigger] results@[t]@[e]).0 == party;
            assert(covers_entries(parties@, &results@[t], results@[t]@.len() as int));
            assert(names(parties@, results@[t]@[e].0));
        }
    }
    parties
}

/// The seats of `party` in each election, in the order of the elections;
/// zero where it won none.
pub fn party_seats(results: &Vec<Tally>, party: &PartyName) -> (seats: Vec<usize>)
    requires
        all_well_formed(results@),
    ensures
        seats@ == seats_of(results@, party@),
{
    let mut seats: Vec<usize> = Vec::new();
    let mut trial: usize = 0;
    while trial < results.len()
        invariant
            trial <= results.len(),
            all_well_formed(results@),
            seats@.len() == trial,
            forall|earlier: int|
                0 <= earlier < trial ==> #[trigger] seats@[earlier] == results@[earlier].count(
                    party@,
                ),
        decreases results.len() - trial,
    {
        seats.push(results[trial].get(party));
        trial += 1;
    }
    assert(seats@ =~= seats_of(results@, party@));
    seats
}

} // verus!
