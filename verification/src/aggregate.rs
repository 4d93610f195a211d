//! From one reading of the market to all that is worked out from it.
use crate::favourites::{
    constituencies_led, get_stats, is_favourite_ranking, winning_constituencies,
};
use crate::model::{
    AggregatedStats, ConstituencyAggregated, ConstituencyStatus, MonteCarloSummary,
    MonteCarloSummarySimple, Status,
};
use crate::party::PartyId;
use crate::ranking::Contest;
use crate::simulation::{
    all_can_be_won, is_election_result, is_first_fault, run_monte_carlo, SimulationError,
};
use crate::standing::standings_view;
use crate::stats::{constituency_stats, make_constituency_stats};
use crate::summary::{get_montecarlo_summary, is_summary_of, to_simple_summary};
use crate::tally::{count_in, Tally};
use crate::text::{
    chars_of, chars_precede, lemma_text_precedes_asymmetric, lemma_text_precedes_total,
    lemma_text_precedes_transitive, text_precedes,
};
use rand::rngs::StdRng;
use vstd::prelude::*;

verus! {

/// Constituencies with their figures are shown in the dictionary order of
/// their names.
impl Contest for Vec<ConstituencyAggregated> {
    open spec fn entrants(&self) -> usize {
        self.len()
    }

    open spec fn beats(&self, a: int, b: int) -> bool {
        text_precedes(self@[a].constituency@, self@[b].constituency@)
    }

    fn size(&self) -> (n: usize) {
        self.len()
    }

    fn decide(&self, a: usize, b: usize) -> (better: bool) {
        let a_name = chars_of(self[a].constituency.as_str());
        let b_name = chars_of(self[b].constituency.as_str());
        chars_precede(&a_name, &b_name)
    }

    proof fn beats_is_asymmetric(&self, a: int, b: int) {
        lemma_text_precedes_asymmetric(self@[a].constituency@, self@[b].constituency@);
    }

    proof fn beats_is_negatively_transitive(&self, a: int, b: int, c: int) {
        let x = self@[a].constituency@;
        let y = self@[b].constituency@;
        let z = self@[c].constituency@;
        if x != z {
            lemma_text_precedes_total(x, z);
            if text_precedes(z, x) {
                lemma_text_precedes_transitive(z, x, y);
            }
        }
    }
}

/// Whether `aggregated` is the constituency `constituency` with its figures.
pub open spec fn is_constituency_with_stats(
    constituency: &ConstituencyStatus,
    aggregated: &ConstituencyAggregated,
) -> bool {
    &&& aggregated.constituency@ == constituency.constituency@
    &&& aggregated.parties@ == constituency.parties@
    &&& aggregated.manifold_url@ == constituency.manifold_url@
    &&& aggregated.stats == constituency_stats(&constituency.parties)
}

/// Whether `simple` is `summary` without the seats of each election.
pub open spec fn is_simple_of(
    summary: &MonteCarloSummary,
    simple: &MonteCarloSummarySimple,
) -> bool {
    &&& simple.party == summary.party
    &&& simple.mode == summary.mode
    &&& simple.median == summary.median
    &&& simple.lower_5th == summary.lower_5th
    &&& simple.upper_95th == summary.upper_95th
    &&& simple.majority_percentage == summary.majority_percentage
}

/// Whether `results` are the results of `trials` elections in the given
/// constituencies.
pub open spec fn are_election_results(
    constituencies: Seq<ConstituencyStatus>,
    trials: int,
    results: Seq<Tally>,
) -> bool {
    &&& results.len() == trials
    &&& forall|trial: int|
        0 <= trial < results.len() ==> {
            &&& (#[trigger] results[trial]).well_formed()
            &&& is_election_result(constituencies, &results[trial])
            &&& results[trial].total() == constituencies.len()
        }
}

/// Whether `stats` is what is worked out from `status`, with `trials`
/// simulated elections and the given threshold for a majority.
pub open spec fn is_aggregate_of(
    status: &Status,
    trials: int,
    threshold: usize,
    stats: &AggregatedStats,
) -> bool {
    &&& stats.fetched_at == status.fetched_at
    &&& stats.constituencies@.len() == status.constituencies@.len()
    &&& forall|i: int|
        0 <= i < stats.constituencies@.len() ==> is_constituency_with_stats(
            &status.constituencies@[i],
            &#[trigger] stats.constituencies@[i],
        )
    &&& is_favourite_ranking(
        status.constituencies@,
        standings_view(stats.winning_constituencies@),
    )
    &&& exists|results: Seq<Tally>, summaries: Seq<MonteCarloSummary>|
        {
            &&& #[trigger] are_election_results(status.constituencies@, trials, results)
            &&& #[trigger] is_summary_of(results, threshold, summaries)
            &&& summaries.len() == stats.monte_carlo_summary@.len()
            &&& forall|i: int|
                0 <= i < summaries.len() ==> is_simple_of(
                    &summaries[i],
                    &#[trigger] stats.monte_carlo_summary@[i],
                )
        }
}

/// The constituency with its figures.
pub fn aggregate_constituency(constituency: &ConstituencyStatus) -> (aggregated:
    ConstituencyAggregated)
    ensures
        is_constituency_with_stats(constituency, &aggregated),
{
    let parties = constituency.parties.clone();
    assert(parties@ =~= constituency.parties@);
    ConstituencyAggregated {
        constituency: constituency.constituency.clone(),
        parties,
        manifold_url: constituency.manifold_url.clone(),
        stats: make_constituency_stats(&constituency.parties),
    }
}

/// Works out everything from one reading of the market: the figures of
/// each constituency, how many constituencies each party leads, and what
/// `trials` simulated elections come to, a party winning a majority where it
/// has more seats than `majority_threshold`.
///
/// Where some constituency has no party that can win, nothing is worked
/// out, and the error names the first such constituency.
pub fn aggregate(
    status: &Status,
    trials: usize,
    majority_threshold: usize,
    rng: &mut StdRng,
) -> (result: Result<AggregatedStats, SimulationError>)
    ensures
        match result {
            Ok(stats) => all_can_be_won(status.constituencies@) && is_aggregate_of(
                status,
                trials as int,
                majority_threshold,
                &stats,
            ),
            Err(error) => is_first_fault(status.constituencies@, error),
        },
{
    let results = match run_monte_carlo(&status.constituencies, trials, rng) {
        Ok(results) => results,
        Err(error) => {
            return Err(error);
        },
    };
    let mut constituencies: Vec<ConstituencyAggregated> = Vec::new();
    let mut at: usize = 0;
    while at < status.constituencies.len()
        invariant
            at <= status.constituencies.len(),
            constituencies@.len() == at,
            forall|i: int|
                0 <= i < at ==> is_constituency_with_stats(
                    &status.constituencies@[i],
                    &#[trigger] constituencies@[i],
                ),
        decreases status.constituencies.len() - at,
    {
        constituencies.push(aggregate_constituency(&status.constituencies[at]));
        at += 1;
    }
    let party_counts = get_stats(&status.constituencies);
    let winning = winning_constituencies(&party_counts);
    let summaries = get_montecarlo_summary(&results, majority_threshold);
    let mut monte_carlo_summary: Vec<MonteCarloSummarySimple> = Vec::new();
    let mut k: usize = 0;
    while k < summaries.len()
        invariant
            k <= summaries.len(),
            monte_carlo_summary@.len() == k,
            forall|i: int|
                0 <= i < k ==> is_simple_of(&summaries@[i], &#[trigger] monte_carlo_summary@[i]),
        decreases summaries.len() - k,
    {
        monte_carlo_summary.push(to_simple_summary(&summaries[k]));
        k += 1;
    }
    let stats = AggregatedStats {
        fetched_at: status.fetched_at,
        constituencies,
        winning_constituencies: winning,
        monte_carlo_summary,
    };
    proof {
        assert forall|party: PartyId|
            count_in(standings_view(stats.winning_constituencies@), party) == constituencies_led(
                status.constituencies@,
                party,
            ) by {
            assert(party_counts.count(party) == constituencies_led(status.constituencies@, party));
        }
        assert(are_election_results(status.constituencies@, trials as int, results@));
        assert(is_summary_of(results@, majority_threshold, summaries@));
    }
    Ok(stats)
}

} // verus!
