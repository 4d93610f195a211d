//! The records that go in and come out: what the market says of each
//! constituency, and what is worked out from it.
//!
//! A probability is a whole number of units, of which [`PROBABILITY_UNITS`]
//! make up certainty. The number of units is a power of two, so that a
//! probability that arrives as a binary fraction is carried as it is, and
//! sums and differences of probabilities are exact. Only the proportions
//! between the probabilities of one constituency matter, so they need not
//! add up to certainty.
use crate::party::PartyName;
use vstd::prelude::*;

verus! {

/// The number of units of probability that make up certainty: two to the
/// power of 62.
pub const PROBABILITY_UNITS: u64 = 0x4000_0000_0000_0000;

/// The number of elections that are simulated by default.
pub const NUMBER_OF_SIMULATIONS: usize = 100_000;

/// The number of seats that a party has to exceed for a majority, in a
/// chamber of 650.
pub const MAJORITY_THRESHOLD: usize = 325;

/// A moment in time: seconds since the start of 1970 in universal time, and
/// the billionths of a second after that.
#[derive(Debug, Clone, Copy, PartialEq, Eq)]
pub struct Timestamp {
    pub seconds: i64,
    pub nanoseconds: u32,
}

/// A party and the probability that the market gives it in one constituency.
#[derive(Debug, PartialEq, Eq)]
pub struct Party {
    pub name: PartyName,
    pub probability: u64,
}

impl Clone for Party {
    fn clone(&self) -> (copy: Self)
        ensures
            copy == *self,
    {
        Party { name: self.name.clone(), probability: self.probability }
    }
}

/// What the market says of one constituency.
#[derive(Debug, PartialEq, Eq)]
pub struct ConstituencyStatus {
    pub constituency: String,
    pub parties: Vec<Party>,
    pub manifold_url: String,
}

/// What the market says of all constituencies, and when that was read.
#[derive(Debug, PartialEq, Eq)]
pub struct Status {
    pub fetched_at: Timestamp,
    pub constituencies: Vec<ConstituencyStatus>,
}

/// The figures of one constituency: the probability of each headline party
/// that stands there, by how much the favourite leads, and the probability
/// of the party in third place.
#[derive(Debug, Clone, Copy, PartialEq, Eq)]
pub struct ConstituencyStats {
    pub labour_probability: Option<u64>,
    pub conservative_probability: Option<u64>,
    pub lib_dem_probability: Option<u64>,
    pub green_probability: Option<u64>,
    pub reform_probability: Option<u64>,
    pub other_probability: Option<u64>,
    pub favourite_lead: Option<u64>,
    pub third_place_probability: Option<u64>,
}

/// A constituency with its figures.
#[derive(Debug, PartialEq, Eq)]
pub struct ConstituencyAggregated {
    pub constituency: String,
    pub parties: Vec<Party>,
    pub manifold_url: String,
    pub stats: ConstituencyStats,
}

/// A share of the simulated elections: `count` out of `out_of`.
#[derive(Debug, Clone, Copy, PartialEq, Eq)]
pub struct Share {
    pub count: usize,
    pub out_of: usize,
}

/// How one party fared over all simulated elections.
#[derive(Debug, PartialEq, Eq)]
pub struct MonteCarloSummary {
    pub party: PartyName,
    /// The party's seats in each simulated election, in ascending order.
    pub seats: Vec<usize>,
    pub mode: usize,
    pub median: usize,
    pub lower_5th: usize,
    pub upper_95th: usize,
    /// The share of elections in which the party won a majority.
    pub majority_percentage: Share,
}

/// How one party fared over all simulated elections, without the seats of
/// each election.
#[derive(Debug, PartialEq, Eq)]
pub struct MonteCarloSummarySimple {
    pub party: PartyName,
    pub mode: usize,
    pub median: usize,
    pub lower_5th: usize,
    pub upper_95th: usize,
    pub majority_percentage: Share,
}

/// All that is worked out from one reading of the market.
#[derive(Debug, PartialEq, Eq)]
pub struct AggregatedStats {
    pub fetched_at: Timestamp,
    pub constituencies: Vec<ConstituencyAggregated>,
    /// For each party that is favourite somewhere, the number of
    /// constituencies where it is: most constituencies first.
    pub winning_constituencies: Vec<(PartyName, usize)>,
    pub monte_carlo_summary: Vec<MonteCarloSummarySimple>,
}

} // verus!
