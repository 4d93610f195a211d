//! Projections for the 2024 general election from a prediction market.
//!
//! For every constituency the market gives each party a probability. From
//! these the library works out the figures of each constituency, how many
//! constituencies each party leads, and what many simulated elections come
//! to: for each party the seats it wins most often, the seats in the middle,
//! the band that holds nine elections in ten, and how often it wins a
//! majority.
pub mod aggregate;
pub mod favourites;
pub mod market;
pub mod model;
pub mod party;
pub mod ranking;
pub mod seats;
pub mod simulation;
pub mod sorting;
pub mod standing;
pub mod stats;
pub mod summary;
pub mod tally;
pub mod text;

pub use aggregate::{aggregate, aggregate_constituency};
pub use favourites::{favourite, get_stats, winning_constituencies};
pub use market::{asks_for_constituency, extract_constituency_name};
pub use model::{
    AggregatedStats, ConstituencyAggregated, ConstituencyStats, ConstituencyStatus,
    MonteCarloSummary, MonteCarloSummarySimple, Party, Share, Status, Timestamp,
    MAJORITY_THRESHOLD, NUMBER_OF_SIMULATIONS, PROBABILITY_UNITS,
};
pub use party::{parse_party_name, party_from_label, PartyName};
pub use ranking::{rank, Contest};
pub use simulation::{first_fault, run_monte_carlo, simulate_one_trial, SimulationError};
pub use sorting::sort_seats;
pub use standing::rank_standings;
pub use stats::{find_probability, make_constituency_stats};
pub use seats::{parties_of, party_seats};
pub use summary::{
    count_majorities, get_montecarlo_summary, median, mode, percentile, summarize,
    to_simple_summary,
};
pub use tally::Tally;
