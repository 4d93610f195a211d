//! What the simulated elections say of each party: the seats it wins most
//! often, the seats in the middle, the band that holds nine elections in
//! ten, and how often it wins a majority.
use crate::model::{MonteCarloSummary, MonteCarloSummarySimple, Share};
use crate::party::{PartyId, PartyName};
use crate::ranking::{has_place, is_ranking, rank, ranking_of};
use crate::sorting::{in_order, lemma_in_order, seat_order, sort_seats};
use crate::standing::{
    in_standing_order, lemma_same_standings_same_order, lemma_standings_in_order, standing_view,
    standings_in_order, standings_view,
};
use crate::seats::{all_well_formed, names, parties_of, party_seats, seats_of, wins_somewhere};
use crate::tally::{one_entry_each, Tally};
use std::collections::HashMap;
use vstd::prelude::*;

verus! {

/// The place in an ascending list of `len` seat totals that stands for the
/// given percentage: the whole part of that percentage of `len`, and never
/// beyond the last place.
pub open spec fn percentile_place(len: int, percent: int) -> int {
    let place = len * percent / 100;
    if place < len {
        place
    } else {
        len - 1
    }
}

/// How often `value` occurs among the seat totals.
pub open spec fn occurrences(seats: Seq<usize>, value: usize) -> nat
    decreases seats.len(),
{
    if seats.len() == 0 {
        0
    } else {
        occurrences(seats.drop_last(), value) + if seats.last() == value {
            1nat
        } else {
            0nat
        }
    }
}

/// Whether `value` is the mode of the seat totals: it occurs among them, no
/// total occurs more often, and it is the smallest of those that occur as
/// often.
pub open spec fn is_mode(seats: Seq<usize>, value: usize) -> bool {
    &&& seats.contains(value)
    &&& forall|other: usize| #[trigger]
        seats.contains(other) ==> occurrences(seats, other) < occurrences(seats, value) || (
        occurrences(seats, other) == occurrences(seats, value) && value <= other)
}

/// In how many elections the party had more seats than `threshold`.
pub open spec fn majority_count(seats: Seq<usize>, threshold: usize) -> nat {
    seats.filter(|won: usize| won > threshold).len()
}

/// A total occurs among the seat totals exactly where it is counted at least
/// once, and never more often than there are totals.
pub proof fn lemma_occurrences(seats: Seq<usize>, value: usize)
    ensures
        seats.contains(value) <==> occurrences(seats, value) >= 1,
        occurrences(seats, value) <= seats.len(),
    decreases seats.len(),
{
    if seats.len() > 0 {
        let rest = seats.drop_last();
        lemma_occurrences(rest, value);
        if rest.contains(value) {
            let at = choose|at: int| 0 <= at < rest.len() && rest[at] == value;
            assert(seats[at] == value);
        }
        if seats.contains(value) && seats.last() != value {
            let at = choose|at: int| 0 <= at < seats.len() && seats[at] == value;
            assert(rest[at] == value);
        }
        if seats.last() == value {
            assert(seats[seats.len() - 1] == value);
        }
    }
}

/// Seat totals have one mode at most.
pub proof fn lemma_mode_is_unique(seats: Seq<usize>, x: usize, y: usize)
    requires
        is_mode(seats, x),
        is_mode(seats, y),
    ensures
        x == y,
{
}

/// No party wins a majority in more elections than there are: its share of
/// majorities lies between none and all.
pub proof fn lemma_majority_share_is_a_fraction(seats: Seq<usize>, threshold: usize)
    ensures
        0 <= majority_count(seats, threshold) <= seats.len(),
{
    seats.lemma_filter_len(|won: usize| won > threshold);
}

/// In an ascending list the place for a smaller percentage never holds more
/// seats than the place for a greater one. So the lower bound of the band is
/// at most the median, and the median at most the upper bound.
pub proof fn lemma_percentiles_ascend(seats: Seq<usize>, smaller: int, greater: int)
    requires
        seats.len() > 0,
        0 <= smaller <= greater <= 100,
    ensures
        0 <= percentile_place(seats.len() as int, smaller) <= percentile_place(
            seats.len() as int,
            greater,
        ) < seats.len(),
        in_order(seats)[percentile_place(seats.len() as int, smaller)] <= in_order(
            seats,
        )[percentile_place(seats.len() as int, greater)],
{
    let len = seats.len() as int;
    lemma_in_order(seats);
    assert(len * smaller <= len * greater) by (nonlinear_arith)
        requires
            len > 0,
            smaller <= greater,
    ;
    assert(0 <= len * smaller) by (nonlinear_arith)
        requires
            len > 0,
            0 <= smaller,
    ;
    let low = percentile_place(len, smaller);
    let high = percentile_place(len, greater);
    if low < high {
        assert(seat_order()(in_order(seats)[low], in_order(seats)[high]));
    }
}

/// The seat total in the middle of an ascending list; of the two in the
/// middle of a list of even length, the later one.
pub fn median(xs: &[usize]) -> (m: usize)
    requires
        xs@.len() > 0,
    ensures
        m == xs@[xs@.len() as int / 2],
        m == xs@[percentile_place(xs@.len() as int, 50)],
{
    xs[xs.len() / 2]
}

/// The seat total at the place that stands for `percent` in an ascending
/// list.
pub fn percentile(xs: &[usize], percent: u8) -> (seats: usize)
    requires
        xs@.len() > 0,
        percent <= 100,
    ensures
        seats == xs@[percentile_place(xs@.len() as int, percent as int)],
{
    let len: usize = xs.len();
    assert(len * percent <= usize::MAX * 100) by (nonlinear_arith)
        requires
            0 <= len <= usize::MAX,
            0 <= percent <= 100,
    ;
    let wide: u128 = (len as u128) * (percent as u128) / 100;
    let place: usize = if wide < len as u128 {
        wide as usize
    } else {
        len - 1
    };
    xs[place]
}

/// The seat total that occurs most often, and of several that occur equally
/// often the smallest. Zero where there are no seat totals.
pub fn mode(xs: &[usize]) -> (m: usize)
    ensures
        xs@.len() == 0 ==> m == 0,
        xs@.len() > 0 ==> is_mode(xs@, m),
{
    broadcast use vstd::std_specs::hash::group_hash_axioms;

    let mut counts: HashMap<usize, usize> = HashMap::new();
    let mut i: usize = 0;
    assert(xs@.take(0) =~= Seq::<usize>::empty());
    while i < xs.len()
        invariant
            i <= xs.len(),
            forall|value: usize| #[trigger]
                counts@.contains_key(value) <==> occurrences(xs@.take(i as int), value) >= 1,
            forall|value: usize| #[trigger]
                counts@.contains_key(value) ==> counts@[value] == occurrences(
                    xs@.take(i as int),
                    value,
                ),
        decreases xs.len() - i,
    {
        let x: usize = xs[i];
        let seen: usize = match counts.get(&x) {
            Some(n) => *n,
            None => 0,
        };
        proof {
            lemma_occurrences(xs@.take(i as int), x);
            assert(xs@.take(i + 1).drop_last() =~= xs@.take(i as int));
            assert(xs@.take(i + 1).last() == x);
        }
        counts.insert(x, seen + 1);
        i += 1;
    }
    assert(xs@.take(xs.len() as int) =~= xs@);
    let mut best: usize = 0;
    let mut best_count: usize = 0;
    let mut j: usize = 0;
    while j < xs.len()
        invariant
            j <= xs.len(),
            forall|value: usize| #[trigger]
                counts@.contains_key(value) <==> occurrences(xs@, value) >= 1,
            forall|value: usize| #[trigger]
                counts@.contains_key(value) ==> counts@[value] == occurrences(xs@, value),
            j == 0 ==> best == 0 && best_count == 0,
            j > 0 ==> xs@.contains(best) && best_count == occurrences(xs@, best),
            forall|k: int|
                0 <= k < j ==> occurrences(xs@, #[trigger] xs@[k]) < best_count || (occurrences(
                    xs@,
                    xs@[k],
                ) == best_count && best <= xs@[k]),
        decreases xs.len() - j,
    {
        let x: usize = xs[j];
        proof {
            assert(xs@.contains(x));
            lemma_occurrences(xs@, x);
        }
        let n: usize = match counts.get(&x) {
            Some(n) => *n,
            None => 0,
        };
        if n > best_count || (n == best_count && x < best) {
            best = x;
            best_count = n;
        }
        j += 1;
    }
    proof {
        if xs@.len() > 0 {
            assert forall|other: usize| #[trigger] xs@.contains(other) implies occurrences(
                xs@,
                other,
            ) < occurrences(xs@, best) || (occurrences(xs@, other) == occurrences(xs@, best)
                && best <= other) by {
                let k = choose|k: int| 0 <= k < xs@.len() && xs@[k] == other;
                assert(occurrences(xs@, xs@[k]) < best_count || (occurrences(xs@, xs@[k])
                    == best_count && best <= xs@[k]));
            }
        }
    }
    best
}

/// The number of seat totals that exceed `threshold`.
pub fn count_majorities(xs: &[usize], threshold: usize) -> (count: usize)
    ensures
        count == majority_count(xs@, threshold),
        count <= xs@.len(),
{
    let mut count: usize = 0;
    let mut i: usize = 0;
    assert(xs@.take(0) =~= Seq::<usize>::empty());
    while i < xs.len()
        invariant
            i <= xs.len(),
            count <= i,
            count == majority_count(xs@.take(i as int), threshold),
        decreases xs.len() - i,
    {
        proof {
            assert(xs@.take(i + 1) =~= xs@.take(i as int).push(xs@[i as int]));
            xs@.take(i as int).lemma_filter_len_push(|won: usize| won > threshold, xs@[i as int]);
        }
        if xs[i] > threshold {
            count += 1;
        }
        i += 1;
    }
    assert(xs@.take(xs.len() as int) =~= xs@);
    count
}

/// Whether `summary` says of `party` what its seat totals, one for each
/// election and in any order, come to.
pub open spec fn describes(
    summary: &MonteCarloSummary,
    party: PartyId,
    seats: Seq<usize>,
    threshold: usize,
) -> bool {
    &&& summary.party@ == party
    &&& summary.seats@ == in_order(seats)
    &&& is_mode(seats, summary.mode)
    &&& summary.median == in_order(seats)[percentile_place(seats.len() as int, 50)]
    &&& summary.lower_5th == in_order(seats)[percentile_place(seats.len() as int, 5)]
    &&& summary.upper_95th == in_order(seats)[percentile_place(seats.len() as int, 95)]
    &&& summary.majority_percentage.count == majority_count(seats, threshold)
    &&& summary.majority_percentage.out_of == seats.len()
}

/// Works out what the seat totals of a party, one for each election and in
/// any order, come to. The party wins a majority where it has more seats
/// than `majority_threshold`.
///
/// With few elections the places of the band are close together or the
/// same; they are never outside the list.
pub fn summarize(party: PartyName, seats: &Vec<usize>, majority_threshold: usize) -> (summary:
    MonteCarloSummary)
    requires
        seats@.len() > 0,
    ensures
        describes(&summary, party@, seats@, majority_threshold),
        summary.lower_5th <= summary.median <= summary.upper_95th,
        summary.majority_percentage.count <= summary.majority_percentage.out_of,
{
    let sorted = sort_seats(seats);
    let mode = mode(seats.as_slice());
    let lower_5th = percentile(sorted.as_slice(), 5);
    let upper_95th = percentile(sorted.as_slice(), 95);
    let median = median(sorted.as_slice());
    let count = count_majorities(seats.as_slice(), majority_threshold);
    proof {
        lemma_percentiles_ascend(seats@, 5, 50);
        lemma_percentiles_ascend(seats@, 50, 95);
    }
    MonteCarloSummary {
        party,
        seats: sorted,
        mode,
        median,
        lower_5th,
        upper_95th,
        majority_percentage: Share { count, out_of: seats.len() },
    }
}

impl Clone for MonteCarloSummary {
    fn clone(&self) -> (copy: Self)
        ensures
            copy.party == self.party,
            copy.seats@ == self.seats@,
            copy.mode == self.mode,
            copy.median == self.median,
            copy.lower_5th == self.lower_5th,
            copy.upper_95th == self.upper_95th,
            copy.majority_percentage == self.majority_percentage,
    {
        let seats = self.seats.clone();
        assert(seats@ =~= self.seats@);
        MonteCarloSummary {
            party: self.party.clone(),
            seats,
            mode: self.mode,
            median: self.median,
            lower_5th: self.lower_5th,
            upper_95th: self.upper_95th,
            majority_percentage: self.majority_percentage,
        }
    }
}

/// The summary without the seats of each election.
pub fn to_simple_summary(summary: &MonteCarloSummary) -> (simple: MonteCarloSummarySimple)
    ensures
        simple.party == summary.party,
        simple.mode == summary.mode,
        simple.median == summary.median,
        simple.lower_5th == summary.lower_5th,
        simple.upper_95th == summary.upper_95th,
        simple.majority_percentage == summary.majority_percentage,
{
    MonteCarloSummarySimple {
        party: summary.party.clone(),
        mode: summary.mode,
        median: summary.median,
        lower_5th: summary.lower_5th,
        upper_95th: summary.upper_95th,
        majority_percentage: summary.majority_percentage,
    }
}

/// The place of a summary among the summaries: by its median, and among
/// equal medians by its party.
pub open spec fn summary_standing(summary: MonteCarloSummary) -> (PartyId, int) {
    (summary.party@, summary.median as int)
}

/// Whether one of the summaries is for `party`.
pub open spec fn summarized(summaries: Seq<MonteCarloSummary>, party: PartyId) -> bool {
    exists|i: int| 0 <= i < summaries.len() && (#[trigger] summaries[i]).party@ == party
}

/// The places of the summaries of a list.
pub open spec fn summary_standings(summaries: Seq<MonteCarloSummary>) -> Seq<(PartyId, int)> {
    summaries.map_values(|summary: MonteCarloSummary| summary_standing(summary))
}

/// Whether `summaries` is what the elections come to: one summary for each
/// party that won a seat in some election, and for no other; each says what
/// the seats of its party come to; and they stand by descending median, two
/// with the same median in the order of their parties.
pub open spec fn is_summary_of(
    results: Seq<Tally>,
    threshold: usize,
    summaries: Seq<MonteCarloSummary>,
) -> bool {
    &&& forall|i: int|
        0 <= i < summaries.len() ==> {
            &&& wins_somewhere(results, (#[trigger] summaries[i]).party@)
            &&& describes(
                &summaries[i],
                summaries[i].party@,
                seats_of(results, summaries[i].party@),
                threshold,
            )
        }
    &&& forall|party: PartyId| #[trigger]
        wins_somewhere(results, party) ==> summarized(summaries, party)
    &&& in_standing_order(summary_standings(summaries))
}

/// The elections fix their summaries: whatever meets [`is_summary_of`] for
/// the same elections names the same parties in the same order, with the
/// same figures.
pub proof fn lemma_summaries_are_determined(
    results: Seq<Tally>,
    threshold: usize,
    x: Seq<MonteCarloSummary>,
    y: Seq<MonteCarloSummary>,
)
    requires
        is_summary_of(results, threshold, x),
        is_summary_of(results, threshold, y),
    ensures
        x.len() == y.len(),
        forall|i: int|
            0 <= i < x.len() ==> {
                &&& (#[trigger] x[i]).party@ == y[i].party@
                &&& x[i].seats@ == y[i].seats@
                &&& x[i].mode == y[i].mode
                &&& x[i].median == y[i].median
                &&& x[i].lower_5th == y[i].lower_5th
                &&& x[i].upper_95th == y[i].upper_95th
                &&& x[i].majority_percentage == y[i].majority_percentage
            },
{
    let x_standings = summary_standings(x);
    let y_standings = summary_standings(y);
    lemma_holds_standings_of(results, threshold, x, y);
    lemma_holds_standings_of(results, threshold, y, x);
    lemma_same_standings_same_order(x_standings, y_standings);
    assert forall|i: int| 0 <= i < x.len() implies {
        &&& (#[trigger] x[i]).party@ == y[i].party@
        &&& x[i].seats@ == y[i].seats@
        &&& x[i].mode == y[i].mode
        &&& x[i].median == y[i].median
        &&& x[i].lower_5th == y[i].lower_5th
        &&& x[i].upper_95th == y[i].upper_95th
        &&& x[i].majority_percentage == y[i].majority_percentage
    } by {
        assert(x_standings[i] == y_standings[i]);
        lemma_mode_is_unique(seats_of(results, x[i].party@), x[i].mode, y[i].mode);
    }
}

/// Of two lists of summaries of the same elections, the second has a
/// summary with the party and median of each summary of the first.
proof fn lemma_holds_standings_of(
    results: Seq<Tally>,
    threshold: usize,
    x: Seq<MonteCarloSummary>,
    y: Seq<MonteCarloSummary>,
)
    requires
        is_summary_of(results, threshold, x),
        is_summary_of(results, threshold, y),
    ensures
        forall|i: int|
            0 <= i < x.len() ==> summary_standings(y).contains(#[trigger] summary_standings(x)[i]),
{
    let x_standings = summary_standings(x);
    let y_standings = summary_standings(y);
    assert forall|i: int| 0 <= i < x.len() implies y_standings.contains(
        #[trigger] x_standings[i],
    ) by {
        let party = x[i].party@;
        assert(wins_somewhere(results, party));
        assert(summarized(y, party));
        let j = choose|j: int| 0 <= j < y.len() && (#[trigger] y[j]).party@ == party;
        assert(y_standings[j] == x_standings[i]);
    }
}

/// Sums up the simulated elections: for each party that won a seat in some
/// election, the seats it won most often, the seats in the middle, the
/// bounds of the band and its share of majorities. The party with the
/// highest median comes first, and of two with the same median the one that
/// comes first in the order of parties.
pub fn get_montecarlo_summary(
    simulation_results: &Vec<Tally>,
    majority_threshold: usize,
) -> (summaries: Vec<MonteCarloSummary>)
    requires
        all_well_formed(simulation_results@),
    ensures
        is_summary_of(simulation_results@, majority_threshold, summaries@),
        forall|i: int|
            0 <= i < summaries@.len() ==> {
                &&& (#[trigger] summaries@[i]).lower_5th <= summaries@[i].median
                    <= summaries@[i].upper_95th
                &&& summaries@[i].majority_percentage.count
                    <= summaries@[i].majority_percentage.out_of
                &&& summaries@[i].majority_percentage.out_of == simulation_results@.len()
            },
{
    let parties = parties_of(simulation_results);
    let mut found: Vec<MonteCarloSummary> = Vec::new();
    let mut standings: Vec<(PartyName, usize)> = Vec::new();
    let mut k: usize = 0;
    while k < parties.len()
        invariant
            k <= parties.len(),
            all_well_formed(simulation_results@),
            found@.len() == k,
            standings@.len() == k,
            forall|j: int|
                0 <= j < parties@.len() ==> wins_somewhere(
                    simulation_results@,
                    (#[trigger] parties@[j])@,
                ),
            forall|j: int|
                0 <= j < k ==> {
                    &&& describes(
                        &#[trigger] found@[j],
                        parties@[j]@,
                        seats_of(simulation_results@, parties@[j]@),
                        majority_threshold,
                    )
                    &&& found@[j].lower_5th <= found@[j].median <= found@[j].upper_95th
                    &&& found@[j].majority_percentage.count <= found@[j].majority_percentage.out_of
                },
            forall|j: int|
                0 <= j < k ==> standing_view(#[trigger] standings@[j]) == summary_standing(
                    found@[j],
                ),
        decreases parties.len() - k,
    {
        let party = &parties[k];
        let seats = party_seats(simulation_results, party);
        proof {
            assert(wins_somewhere(simulation_results@, parties@[k as int]@));
        }
        let summary = summarize(party.clone(), &seats, majority_threshold);
        standings.push((party.clone(), summary.median));
        found.push(summary);
        k += 1;
    }
    proof {
        assert(one_entry_each(standings_view(standings@))) by {
            assert forall|i: int, j: int| 0 <= i < j < standings@.len() implies (
            #[trigger] standings_view(standings@)[i]).0 != (#[trigger] standings_view(
                standings@,
            )[j]).0 by {
                assert(standing_view(standings@[i]) == summary_standing(found@[i]));
                assert(standing_view(standings@[j]) == summary_standing(found@[j]));
                assert(parties@[i]@ != parties@[j]@);
            }
        }
        lemma_standings_in_order(&standings);
    }
    let order = rank(&standings);
    let mut summaries: Vec<MonteCarloSummary> = Vec::new();
    let mut place: usize = 0;
    while place < order.len()
        invariant
            place <= order.len(),
            is_ranking(&standings, order@),
            order@ == ranking_of(&standings),
            found@.len() == standings@.len(),
            summaries@.len() == place,
            forall|earlier: int|
                0 <= earlier < place ==> {
                    let from = order@[earlier] as int;
                    &&& (#[trigger] summaries@[earlier]).party == found@[from].party
                    &&& summaries@[earlier].seats@ == found@[from].seats@
                    &&& summaries@[earlier].mode == found@[from].mode
                    &&& summaries@[earlier].median == found@[from].median
                    &&& summaries@[earlier].lower_5th == found@[from].lower_5th
                    &&& summaries@[earlier].upper_95th == found@[from].upper_95th
                    &&& summaries@[earlier].majority_percentage == found@[from].majority_percentage
                },
        decreases order.len() - place,
    {
        summaries.push(found[order[place]].clone());
        place += 1;
    }
    proof {
        let ranked = summary_standings(summaries@);
        assert(ranked =~= standings_in_order(&standings)) by {
            assert forall|i: int| 0 <= i < ranked.len() implies ranked[i] == standings_in_order(
                &standings,
            )[i] by {
                let from = order@[i] as int;
                assert(standing_view(standings@[from]) == summary_standing(found@[from]));
            }
        }
        assert forall|i: int| 0 <= i < summaries@.len() implies {
            &&& wins_somewhere(simulation_results@, (#[trigger] summaries@[i]).party@)
            &&& describes(
                &summaries@[i],
                summaries@[i].party@,
                seats_of(simulation_results@, summaries@[i].party@),
                majority_threshold,
            )
            &&& summaries@[i].lower_5th <= summaries@[i].median <= summaries@[i].upper_95th
            &&& summaries@[i].majority_percentage.count <= summaries@[i].majority_percentage.out_of
            &&& summaries@[i].majority_percentage.out_of == simulation_results@.len()
        } by {
            let from = order@[i] as int;
            assert(describes(
                &found@[from],
                parties@[from]@,
                seats_of(simulation_results@, parties@[from]@),
                majority_threshold,
            ));
        }
        assert forall|party: PartyId| #[trigger]
            wins_somewhere(simulation_results@, party) implies summarized(summaries@, party) by {
            assert(names(parties@, party));
            let j = choose|j: int| 0 <= j < parties@.len() && (#[trigger] parties@[j])@ == party;
            assert(describes(
                &found@[j],
                parties@[j]@,
                seats_of(simulation_results@, parties@[j]@),
                majority_threshold,
            ));
            assert(has_place(order@, j));
            let i = choose|i: int| 0 <= i < order@.len() && order@[i] == j;
            assert(summaries@[i].party@ == party);
        }
    }
    summaries
}

} // verus!
