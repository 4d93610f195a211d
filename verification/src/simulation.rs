//! Simulated elections: in each one every constituency goes to one of its
//! parties, drawn at random with the market's probabilities as weights.
use crate::model::{ConstituencyStatus, Party};
use crate::party::PartyId;
use crate::tally::{
    count_in, has_entry, lemma_count_absent, lemma_count_present, lemma_count_update,
    lemma_total_of_nothing, one_entry_each, total_in, Tally,
};
use rand::distributions::WeightedError;
use rand::rngs::StdRng;
use rand::seq::SliceRandom;
use vstd::prelude::*;

verus! {

/// The standard random number generator of the `rand` crate. Once it is
/// made it takes nothing from outside: every draw works on its own state
/// alone.
#[verifier::external_type_specification]
#[verifier::external_body]
pub struct ExStdRng(StdRng);

/// The reason for which the `rand` crate refuses a list of weights.
#[verifier::external_type_specification]
#[verifier::external_body]
pub struct ExWeightedError(WeightedError);

/// Why no election can be simulated: the first constituency, by its place in
/// the list, in which no party can win.
#[derive(Debug, Clone, Copy, PartialEq, Eq)]
pub enum SimulationError {
    /// The constituency has no parties.
    NoParties { constituency: usize },
    /// The constituency has parties, and each of them has probability zero.
    AllWeightsZero { constituency: usize },
}

/// Whether some party of the list has a probability above zero.
pub open spec fn has_positive_weight(parties: Seq<Party>) -> bool {
    exists|i: int| 0 <= i < parties.len() && (#[trigger] parties[i]).probability > 0
}

/// What is wrong with the constituency at place `at`, if anything.
pub open spec fn fault_at(constituencies: Seq<ConstituencyStatus>, at: int) -> Option<
    SimulationError,
> {
    if constituencies[at].parties@.len() == 0 {
        Some(SimulationError::NoParties { constituency: at as usize })
    } else if !has_positive_weight(constituencies[at].parties@) {
        Some(SimulationError::AllWeightsZero { constituency: at as usize })
    } else {
        None
    }
}

/// Whether every constituency has a party that can win it.
pub open spec fn all_can_be_won(constituencies: Seq<ConstituencyStatus>) -> bool {
    forall|at: int|
        0 <= at < constituencies.len() ==> #[trigger] fault_at(constituencies, at) is None
}

/// Whether `error` tells what is wrong with the first constituency that no
/// party can win.
pub open spec fn is_first_fault(
    constituencies: Seq<ConstituencyStatus>,
    error: SimulationError,
) -> bool {
    exists|at: int|
        {
            &&& 0 <= at < constituencies.len()
            &&& #[trigger] fault_at(constituencies, at) == Some(error)
            &&& forall|earlier: int|
                0 <= earlier < at ==> #[trigger] fault_at(constituencies, earlier) is None
        }
}

/// Whether `winners` names, for each constituency in turn, the place of a
/// party of that constituency with a probability above zero.
pub open spec fn possible_winners(
    constituencies: Seq<ConstituencyStatus>,
    winners: Seq<int>,
) -> bool {
    &&& winners.len() == constituencies.len()
    &&& forall|at: int|
        0 <= at < winners.len() ==> {
            &&& 0 <= #[trigger] winners[at] < constituencies[at].parties@.len()
            &&& constituencies[at].parties@[winners[at]].probability > 0
        }
}

/// The number of seats that `party` has when the first constituencies go to
/// the parties that `winners` names.
pub open spec fn seats_won(
    constituencies: Seq<ConstituencyStatus>,
    winners: Seq<int>,
    party: PartyId,
) -> int
    decreases winners.len(),
{
    if winners.len() == 0 {
        0
    } else {
        let winner = constituencies[winners.len() - 1].parties@[winners.last()];
        let won: int = if winner.name@ == party {
            1
        } else {
            0
        };
        seats_won(constituencies, winners.drop_last(), party) + won
    }
}

/// Whether `trial` is the result of an election: each constituency has gone
/// to one of its parties with a probability above zero, and each party
/// counts the constituencies that went to it.
pub open spec fn is_election_result(
    constituencies: Seq<ConstituencyStatus>,
    trial: &Tally,
) -> bool {
    exists|winners: Seq<int>|
        {
            &&& #[trigger] possible_winners(constituencies, winners)
            &&& forall|party: PartyId|
                trial.count(party) == seats_won(constituencies, winners, party)
        }
}

/// No party wins fewer than no seats.
pub proof fn lemma_seats_won_not_negative(
    constituencies: Seq<ConstituencyStatus>,
    winners: Seq<int>,
    party: PartyId,
)
    ensures
        seats_won(constituencies, winners, party) >= 0,
    decreases winners.len(),
{
    if winners.len() > 0 {
        lemma_seats_won_not_negative(constituencies, winners.drop_last(), party);
    }
}

/// Every constituency gives one seat: in a list that has one entry for each
/// party and gives each party the seats that it won, the seats add up to the
/// number of constituencies that were won, however many these are.
pub proof fn lemma_seats_add_up(
    constituencies: Seq<ConstituencyStatus>,
    winners: Seq<int>,
    entries: Seq<(PartyId, int)>,
)
    requires
        one_entry_each(entries),
        forall|party: PartyId|
            count_in(entries, party) == seats_won(constituencies, winners, party),
    ensures
        total_in(entries) == winners.len(),
    decreases winners.len(),
{
    if winners.len() == 0 {
        assert forall|i: int| 0 <= i < entries.len() implies (#[trigger] entries[i]).1 == 0 by {
            lemma_count_present(entries, i);
            assert(count_in(entries, entries[i].0) == seats_won(
                constituencies,
                winners,
                entries[i].0,
            ));
        }
        lemma_total_of_nothing(entries);
    } else {
        let before = winners.drop_last();
        let winner = constituencies[winners.len() - 1].parties@[winners.last()].name@;
        lemma_seats_won_not_negative(constituencies, before, winner);
        assert(count_in(entries, winner) == seats_won(constituencies, winners, winner));
        if !has_entry(entries, winner) {
            lemma_count_absent(entries, winner);
        }
        let at = choose|at: int| 0 <= at < entries.len() && (#[trigger] entries[at]).0 == winner;
        let fewer = entries.update(at, (winner, entries[at].1 - 1));
        assert(one_entry_each(fewer));
        assert forall|party: PartyId|
            count_in(fewer, party) == seats_won(constituencies, before, party) by {
            lemma_count_update(entries, at, entries[at].1 - 1, party);
            assert(count_in(entries, party) == seats_won(constituencies, winners, party));
        }
        lemma_count_update(entries, at, entries[at].1 - 1, winner);
        lemma_seats_add_up(constituencies, before, fewer);
    }
}

/// Draws one party of the list at random, each with a chance in proportion
/// to its probability.
///
/// This is `choose_weighted` of the `rand` crate, on the slice of parties
/// and with the probabilities, widened to 128 bits, as weights. The contract
/// holds whatever is drawn. It claims that the call fails exactly where the
/// list is empty or all its weights are zero (a sum of 64-bit weights cannot
/// overflow 128 bits, and no weight is negative), and that the party handed
/// out is one of the list and has a weight above zero: the crate picks a
/// number below the sum of the weights and takes the first party at which
/// the running sum exceeds it. The generator is the standard one, which
/// works on its own state and is never seeded anew, so that no draw can
/// fail for want of randomness from the system.
#[verifier::external_body]
fn choose_weighted<'a>(parties: &'a Vec<Party>, rng: &mut StdRng) -> (drawn: Result<
    &'a Party,
    WeightedError,
>)
    ensures
        drawn is Ok <==> has_positive_weight(parties@),
        drawn matches Ok(winner) ==> exists|i: int|
            0 <= i < parties@.len() && #[trigger] parties@[i] == *winner && winner.probability > 0,
{
    parties.choose_weighted(rng, |party| u128::from(party.probability))
}

/// What is wrong with the first constituency that no party can win; `None`
/// where every constituency can be won.
pub fn first_fault(constituencies: &Vec<ConstituencyStatus>) -> (fault: Option<SimulationError>)
    ensures
        match fault {
            Some(error) => is_first_fault(constituencies@, error),
            None => all_can_be_won(constituencies@),
        },
{
    let mut at: usize = 0;
    while at < constituencies.len()
        invariant
            at <= constituencies.len(),
            forall|earlier: int|
                0 <= earlier < at ==> #[trigger] fault_at(constituencies@, earlier) is None,
        decreases constituencies.len() - at,
    {
        let parties = &constituencies[at].parties;
        if parties.len() == 0 {
            let error = SimulationError::NoParties { constituency: at };
            assert(fault_at(constituencies@, at as int) == Some(error));
            return Some(error);
        }
        let mut i: usize = 0;
        while i < parties.len() && parties[i].probability == 0
            invariant
                i <= parties.len(),
                forall|j: int| 0 <= j < i ==> (#[trigger] parties@[j]).probability == 0,
            decreases parties.len() - i,
        {
            i += 1;
        }
        if i == parties.len() {
            let error = SimulationError::AllWeightsZero { constituency: at };
            assert(fault_at(constituencies@, at as int) == Some(error));
            return Some(error);
        }
        assert(has_positive_weight(parties@)) by {
            assert(parties@[i as int].probability > 0);
        }
        at += 1;
    }
    None
}

/// Simulates one election: every constituency goes to one of its parties,
/// drawn with the probabilities as weights, and the winner is credited with
/// one seat.
///
/// Which party wins a constituency is up to chance. Whatever is drawn, each
/// constituency gives one seat to one party that has a probability above
/// zero, so that the seats add up to the number of constituencies. Where
/// some constituency has no party that can win, no election is simulated,
/// and the error names the first such constituency.
pub fn simulate_one_trial(constituencies: &Vec<ConstituencyStatus>, rng: &mut StdRng) -> (result:
    Result<Tally, SimulationError>)
    ensures
        match result {
            Ok(trial) => {
                &&& all_can_be_won(constituencies@)
                &&& trial.well_formed()
                &&& is_election_result(constituencies@, &trial)
                &&& trial.total() == constituencies.len()
            },
            Err(error) => is_first_fault(constituencies@, error),
        },
{
    let mut trial = Tally::new();
    let ghost mut winners: Seq<int> = Seq::empty();
    let mut at: usize = 0;
    while at < constituencies.len()
        invariant
            at <= constituencies.len(),
            trial.well_formed(),
            trial.total() == at,
            winners.len() == at,
            forall|earlier: int|
                0 <= earlier < at ==> #[trigger] fault_at(constituencies@, earlier) is None,
            forall|earlier: int|
                0 <= earlier < at ==> {
                    &&& 0 <= #[trigger] winners[earlier] < constituencies@[earlier].parties@.len()
                    &&& constituencies@[earlier].parties@[winners[earlier]].probability > 0
                },
            forall|party: PartyId|
                trial.count(party) == seats_won(constituencies@, winners, party),
        decreases constituencies.len() - at,
    {
        let parties = &constituencies[at].parties;
        match choose_weighted(parties, rng) {
            Ok(winner) => {
                let ghost place = choose|i: int|
                    0 <= i < parties@.len() && #[trigger] parties@[i] == *winner
                        && winner.probability > 0;
                let ghost before = winners;
                trial.add(&winner.name);
                proof {
                    winners = before.push(place);
                    assert(winners.drop_last() =~= before);
                    assert(has_positive_weight(parties@));
                }
            },
            Err(_) => {
                let error = if parties.len() == 0 {
                    SimulationError::NoParties { constituency: at }
                } else {
                    SimulationError::AllWeightsZero { constituency: at }
                };
                assert(fault_at(constituencies@, at as int) == Some(error));
                return Err(error);
            },
        }
        at += 1;
    }
    assert(possible_winners(constituencies@, winners));
    Ok(trial)
}

/// Simulates `trials` elections, one after the other and each by itself.
///
/// Where some constituency has no party that can win, nothing is simulated,
/// and the error names the first such constituency. Otherwise there is one
/// result for each election, and each is as [`simulate_one_trial`] gives it.
pub fn run_monte_carlo(
    constituencies: &Vec<ConstituencyStatus>,
    trials: usize,
    rng: &mut StdRng,
) -> (result: Result<Vec<Tally>, SimulationError>)
    ensures
        match result {
            Ok(results) => {
                &&& all_can_be_won(constituencies@)
                &&& results@.len() == trials
                &&& forall|trial: int|
                    0 <= trial < results@.len() ==> {
                        &&& (#[trigger] results@[trial]).well_formed()
                        &&& is_election_result(constituencies@, &results@[trial])
                        &&& results@[trial].total() == constituencies.len()
                    }
            },
            Err(error) => is_first_fault(constituencies@, error),
        },
{
    if let Some(error) = first_fault(constituencies) {
        return Err(error);
    }
    let mut results: Vec<Tally> = Vec::new();
    let mut done: usize = 0;
    while done < trials
        invariant
            done <= trials,
            all_can_be_won(constituencies@),
            results@.len() == done,
            forall|trial: int|
                0 <= trial < results@.len() ==> {
                    &&& (#[trigger] results@[trial]).well_formed()
                    &&& is_election_result(constituencies@, &results@[trial])
                    &&& results@[trial].total() == constituencies.len()
                },
        decreases trials - done,
    {
        match simulate_one_trial(constituencies, rng) {
            Ok(trial) => {
                results.push(trial);
            },
            Err(error) => {
                return Err(error);
            },
        }
        done += 1;
    }
    Ok(results)
}

} // verus!
