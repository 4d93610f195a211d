use election_2024::{
    aggregate, aggregate_constituency, rank, ConstituencyAggregated, ConstituencyStats,
    ConstituencyStatus, Party, PartyName, SimulationError, Status, Timestamp,
    MAJORITY_THRESHOLD, NUMBER_OF_SIMULATIONS, PROBABILITY_UNITS,
};
use rand::rngs::StdRng;
use rand::SeedableRng;

fn constituency(name: &str, parties: Vec<(PartyName, u64)>) -> ConstituencyStatus {
    ConstituencyStatus {
        constituency: name.to_string(),
        parties: parties
            .into_iter()
            .map(|(name, probability)| Party { name, probability })
            .collect(),
        manifold_url: format!("https://manifold.markets/{}", name),
    }
}

fn status() -> Status {
    Status {
        fetched_at: Timestamp { seconds: 1_717_200_000, nanoseconds: 123_456_789 },
        constituencies: vec![
            constituency(
                "Wells",
                vec![
                    (PartyName::LiberalDemocrats, 600_000_000),
                    (PartyName::Conservatives, 390_000_000),
                    (PartyName::Labour, 10_000_000),
                ],
            ),
            constituency(
                "Bath",
                vec![(PartyName::LiberalDemocrats, 950_000_000), (PartyName::Labour, 50_000_000)],
            ),
            constituency("Bristol Central", vec![(PartyName::Green, 1_000_000_000)]),
            constituency(
                "Islington North",
                vec![(PartyName::Independent, 500_000_000), (PartyName::Labour, 500_000_000)],
            ),
        ],
    }
}

#[test]
fn the_settings_have_their_values() {
    assert_eq!(NUMBER_OF_SIMULATIONS, 100_000);
    assert_eq!(MAJORITY_THRESHOLD, 325);
    assert_eq!(PROBABILITY_UNITS, 1 << 62);
}

#[test]
fn a_constituency_keeps_its_data_and_gains_its_figures() {
    let wells = &status().constituencies[0];
    let aggregated = aggregate_constituency(wells);
    assert_eq!(
        aggregated,
        ConstituencyAggregated {
            constituency: "Wells".to_string(),
            parties: vec![
                Party { name: PartyName::LiberalDemocrats, probability: 600_000_000 },
                Party { name: PartyName::Conservatives, probability: 390_000_000 },
                Party { name: PartyName::Labour, probability: 10_000_000 },
            ],
            manifold_url: "https://manifold.markets/Wells".to_string(),
            stats: ConstituencyStats {
                labour_probability: Some(10_000_000),
                conservative_probability: Some(390_000_000),
                lib_dem_probability: Some(600_000_000),
                green_probability: None,
                reform_probability: None,
                other_probability: None,
                favourite_lead: Some(210_000_000),
                third_place_probability: Some(10_000_000),
            },
        }
    );
}

#[test]
fn everything_is_worked_out_from_one_reading() {
    let status = status();
    let mut rng = StdRng::from_entropy();
    let stats = aggregate(&status, 200, 1, &mut rng).unwrap();
    assert_eq!(stats.fetched_at, status.fetched_at);
    assert_eq!(stats.constituencies.len(), 4);
    for (aggregated, constituency) in stats.constituencies.iter().zip(status.constituencies.iter())
    {
        assert_eq!(*aggregated, aggregate_constituency(constituency));
    }
    assert_eq!(
        stats.winning_constituencies,
        vec![
            (PartyName::LiberalDemocrats, 2),
            (PartyName::Green, 1),
            (PartyName::Independent, 1),
        ]
    );
    assert!(!stats.monte_carlo_summary.is_empty());
    for summary in stats.monte_carlo_summary.iter() {
        assert!(summary.lower_5th <= summary.median);
        assert!(summary.median <= summary.upper_95th);
        assert!(summary.majority_percentage.count <= 200);
        assert_eq!(summary.majority_percentage.out_of, 200);
        assert!(summary.upper_95th <= 4);
    }
    for pair in stats.monte_carlo_summary.windows(2) {
        assert!(
            pair[0].median > pair[1].median
                || (pair[0].median == pair[1].median && pair[0].party < pair[1].party)
        );
    }
    let green = stats
        .monte_carlo_summary
        .iter()
        .find(|summary| summary.party == PartyName::Green)
        .unwrap();
    assert_eq!((green.mode, green.median, green.lower_5th, green.upper_95th), (1, 1, 1, 1));
    assert_eq!(green.majority_percentage.count, 0);
}

#[test]
fn favourites_rank_the_same_way_every_time() {
    let status = status();
    let mut rng = StdRng::from_entropy();
    let first = aggregate(&status, 10, MAJORITY_THRESHOLD, &mut rng).unwrap();
    for _ in 0..20 {
        let again = aggregate(&status, 10, MAJORITY_THRESHOLD, &mut rng).unwrap();
        assert_eq!(again.winning_constituencies, first.winning_constituencies);
        assert_eq!(again.constituencies, first.constituencies);
    }
}

#[test]
fn certain_results_are_summed_up_the_same_way_every_time() {
    let status = Status {
        fetched_at: Timestamp { seconds: 0, nanoseconds: 0 },
        constituencies: vec![
            constituency("One", vec![(PartyName::Unparsed("Zed".to_string()), 5)]),
            constituency("Two", vec![(PartyName::Reform, 5), (PartyName::Labour, 0)]),
            constituency("Three", vec![(PartyName::Unparsed("Alpha".to_string()), 5)]),
            constituency("Four", vec![(PartyName::Conservatives, 5)]),
            constituency("Five", vec![(PartyName::Green, 5)]),
            constituency("Six", vec![(PartyName::Green, 5)]),
        ],
    };
    let mut rng = StdRng::from_entropy();
    let expected = vec![
        PartyName::Green,
        PartyName::Conservatives,
        PartyName::Reform,
        PartyName::Unparsed("Alpha".to_string()),
        PartyName::Unparsed("Zed".to_string()),
    ];
    for _ in 0..20 {
        let stats = aggregate(&status, 25, 1, &mut rng).unwrap();
        let order: Vec<PartyName> =
            stats.monte_carlo_summary.iter().map(|summary| summary.party.clone()).collect();
        assert_eq!(order, expected);
        assert_eq!(stats.monte_carlo_summary[0].majority_percentage.count, 25);
        assert_eq!(stats.monte_carlo_summary[1].majority_percentage.count, 0);
    }
}

#[test]
fn nothing_is_worked_out_from_a_faulty_reading() {
    let mut status = status();
    status.constituencies.push(constituency("Nowhere", vec![]));
    status.constituencies.push(constituency("Void", vec![(PartyName::Labour, 0)]));
    let mut rng = StdRng::from_entropy();
    assert_eq!(
        aggregate(&status, 10, MAJORITY_THRESHOLD, &mut rng).err(),
        Some(SimulationError::NoParties { constituency: 4 })
    );
    status.constituencies.remove(4);
    assert_eq!(
        aggregate(&status, 10, MAJORITY_THRESHOLD, &mut rng).err(),
        Some(SimulationError::AllWeightsZero { constituency: 4 })
    );
}

#[test]
fn constituencies_are_shown_in_the_order_of_their_names() {
    let status = status();
    let aggregated: Vec<ConstituencyAggregated> =
        status.constituencies.iter().map(aggregate_constituency).collect();
    assert_eq!(rank(&aggregated), vec![1, 2, 3, 0]);
    let mut twice: Vec<ConstituencyAggregated> =
        status.constituencies.iter().map(aggregate_constituency).collect();
    twice.push(aggregate_constituency(&status.constituencies[1]));
    twice.push(aggregate_constituency(&constituency("bath", vec![])));
    twice.push(aggregate_constituency(&constituency("", vec![])));
    assert_eq!(rank(&twice), vec![6, 1, 4, 2, 3, 0, 5]);
}
