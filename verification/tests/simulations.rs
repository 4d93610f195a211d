use election_2024::{
    first_fault, get_montecarlo_summary, run_monte_carlo, simulate_one_trial, ConstituencyStatus,
    Party, PartyName, SimulationError, Tally,
};
use rand::rngs::StdRng;
use rand::SeedableRng;

fn constituency(name: &str, parties: Vec<(PartyName, u64)>) -> ConstituencyStatus {
    ConstituencyStatus {
        constituency: name.to_string(),
        parties: parties
            .into_iter()
            .map(|(name, probability)| Party { name, probability })
            .collect(),
        manifold_url: String::new(),
    }
}

fn seats_in(trial: &Tally) -> usize {
    trial.entries().iter().map(|entry| entry.1).sum()
}

fn party_a() -> PartyName {
    PartyName::Unparsed("A".to_string())
}

fn party_b() -> PartyName {
    PartyName::Unparsed("B".to_string())
}

#[test]
fn every_constituency_gives_one_seat_in_every_election() {
    let constituencies = vec![
        constituency("One", vec![(PartyName::Labour, 500), (PartyName::Conservatives, 500)]),
        constituency("Two", vec![(PartyName::Green, 1), (PartyName::Labour, 2)]),
        constituency("Three", vec![(PartyName::SNP, 9), (PartyName::Labour, 1)]),
        constituency("Four", vec![(PartyName::Other, 3)]),
        constituency("Five", vec![(party_a(), 0), (party_b(), 7), (PartyName::Labour, 7)]),
    ];
    let mut rng = StdRng::from_entropy();
    let results = run_monte_carlo(&constituencies, 500, &mut rng).unwrap();
    assert_eq!(results.len(), 500);
    for trial in results.iter() {
        assert_eq!(seats_in(trial), 5);
        assert_eq!(trial.get(&PartyName::Other), 1);
        assert_eq!(trial.get(&party_a()), 0);
        assert_eq!(trial.get(&PartyName::Reform), 0);
        for (party, seats) in trial.entries().iter() {
            assert!(*seats >= 1);
            assert!(constituencies
                .iter()
                .any(|c| c.parties.iter().any(|p| p.name == *party && p.probability > 0)));
        }
    }
}

#[test]
fn one_election_by_itself() {
    let constituencies = vec![
        constituency("One", vec![(PartyName::Labour, 1)]),
        constituency("Two", vec![(PartyName::Labour, 1)]),
        constituency("Three", vec![(PartyName::Green, 1), (PartyName::Other, 0)]),
    ];
    let mut rng = StdRng::from_entropy();
    let trial = simulate_one_trial(&constituencies, &mut rng).unwrap();
    assert_eq!(trial.get(&PartyName::Labour), 2);
    assert_eq!(trial.get(&PartyName::Green), 1);
    assert_eq!(trial.get(&PartyName::Other), 0);
    assert_eq!(seats_in(&trial), 3);
}

#[test]
fn no_constituencies_no_seats() {
    let constituencies: Vec<ConstituencyStatus> = Vec::new();
    let mut rng = StdRng::from_entropy();
    let trial = simulate_one_trial(&constituencies, &mut rng).unwrap();
    assert!(trial.entries().is_empty());
    let results = run_monte_carlo(&constituencies, 3, &mut rng).unwrap();
    assert_eq!(results.len(), 3);
}

#[test]
fn no_elections_no_results() {
    let constituencies = vec![constituency("One", vec![(PartyName::Labour, 1)])];
    let mut rng = StdRng::from_entropy();
    let results = run_monte_carlo(&constituencies, 0, &mut rng).unwrap();
    assert!(results.is_empty());
}

#[test]
fn a_constituency_without_parties_is_an_error() {
    let constituencies = vec![
        constituency("One", vec![(PartyName::Labour, 1)]),
        constituency("Two", vec![]),
        constituency("Three", vec![(PartyName::Labour, 0)]),
    ];
    let error = SimulationError::NoParties { constituency: 1 };
    let mut rng = StdRng::from_entropy();
    assert_eq!(first_fault(&constituencies), Some(error));
    assert_eq!(simulate_one_trial(&constituencies, &mut rng).err(), Some(error));
    assert_eq!(run_monte_carlo(&constituencies, 10, &mut rng).err(), Some(error));
    assert_eq!(run_monte_carlo(&constituencies, 0, &mut rng).err(), Some(error));
}

#[test]
fn a_constituency_with_zero_weights_only_is_an_error() {
    let constituencies = vec![
        constituency("One", vec![(PartyName::Labour, 1)]),
        constituency("Two", vec![(PartyName::Labour, 0), (PartyName::Green, 0)]),
        constituency("Three", vec![]),
    ];
    let error = SimulationError::AllWeightsZero { constituency: 1 };
    let mut rng = StdRng::from_entropy();
    assert_eq!(first_fault(&constituencies), Some(error));
    assert_eq!(simulate_one_trial(&constituencies, &mut rng).err(), Some(error));
    assert_eq!(run_monte_carlo(&constituencies, 10, &mut rng).err(), Some(error));
}

#[test]
fn sound_constituencies_have_no_fault() {
    let constituencies = vec![
        constituency("One", vec![(PartyName::Labour, 0), (PartyName::Green, 1)]),
        constituency("Two", vec![(PartyName::Labour, u64::MAX), (PartyName::Green, u64::MAX)]),
    ];
    assert_eq!(first_fault(&constituencies), None);
    let mut rng = StdRng::from_entropy();
    let trial = simulate_one_trial(&constituencies, &mut rng).unwrap();
    assert_eq!(seats_in(&trial), 2);
}

#[test]
fn one_constituency_with_two_parties() {
    let constituencies = vec![constituency(
        "Only",
        vec![(party_a(), 700_000_000), (party_b(), 300_000_000)],
    )];
    let trials: usize = 100_000;
    let mut rng = StdRng::from_entropy();
    let results = run_monte_carlo(&constituencies, trials, &mut rng).unwrap();
    assert_eq!(results.len(), trials);
    let wins = results.iter().filter(|trial| trial.get(&party_a()) == 1).count();
    let rate = wins as f64 / trials as f64;
    assert!((rate - 0.70).abs() <= 0.01);
    let summaries = get_montecarlo_summary(&results, 0);
    assert_eq!(summaries.len(), 2);
    assert_eq!(summaries[0].party, party_a());
    assert_eq!(summaries[0].mode, 1);
    assert_eq!(summaries[0].median, 1);
    assert_eq!(summaries[0].majority_percentage.count, wins);
    assert_eq!(summaries[0].majority_percentage.out_of, trials);
    assert_eq!(summaries[1].party, party_b());
    assert_eq!(summaries[1].mode, 0);
    assert_eq!(summaries[1].median, 0);
    assert_eq!(summaries[1].majority_percentage.count, trials - wins);
}

#[test]
fn weights_need_not_add_up_to_certainty() {
    let constituencies = vec![constituency("Only", vec![(party_a(), 1), (party_b(), 3)])];
    let trials: usize = 40_000;
    let mut rng = StdRng::from_entropy();
    let results = run_monte_carlo(&constituencies, trials, &mut rng).unwrap();
    let wins = results.iter().filter(|trial| trial.get(&party_a()) == 1).count();
    let rate = wins as f64 / trials as f64;
    assert!((rate - 0.25).abs() <= 0.02);
}

#[test]
fn two_certain_constituencies() {
    let party_x = PartyName::Unparsed("X".to_string());
    let constituencies = vec![
        constituency("One", vec![(party_x.clone(), 1_000_000_000)]),
        constituency("Two", vec![(party_x.clone(), 1_000_000_000)]),
    ];
    let mut rng = StdRng::from_entropy();
    let results = run_monte_carlo(&constituencies, 1_000, &mut rng).unwrap();
    let summaries = get_montecarlo_summary(&results, 325);
    assert_eq!(summaries.len(), 1);
    assert_eq!(summaries[0].party, party_x);
    assert_eq!(summaries[0].seats, vec![2; 1_000]);
    assert_eq!(summaries[0].median, 2);
    assert_eq!(summaries[0].mode, 2);
    assert_eq!(summaries[0].lower_5th, 2);
    assert_eq!(summaries[0].upper_95th, 2);
    assert_eq!(summaries[0].majority_percentage.count, 0);
    assert_eq!(summaries[0].majority_percentage.out_of, 1_000);
}

#[test]
fn the_same_seed_gives_the_same_elections() {
    let constituencies = vec![
        constituency("One", vec![(PartyName::Labour, 3), (PartyName::Conservatives, 2)]),
        constituency("Two", vec![(PartyName::Green, 1), (PartyName::Labour, 1)]),
        constituency("Three", vec![(party_a(), 5), (party_b(), 5), (PartyName::SNP, 5)]),
    ];
    let mut first = StdRng::seed_from_u64(2024);
    let mut second = StdRng::seed_from_u64(2024);
    let these = run_monte_carlo(&constituencies, 200, &mut first).unwrap();
    let those = run_monte_carlo(&constituencies, 200, &mut second).unwrap();
    assert_eq!(these.len(), those.len());
    for (this, that) in these.iter().zip(those.iter()) {
        assert_eq!(this.entries(), that.entries());
        assert_eq!(seats_in(this), 3);
    }
}
