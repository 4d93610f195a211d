use election_2024::{
    find_probability, make_constituency_stats, rank, ConstituencyStats, Party, PartyName,
};

fn party(name: PartyName, probability: u64) -> Party {
    Party { name, probability }
}

#[test]
fn the_figures_of_a_full_constituency() {
    let parties = vec![
        party(PartyName::Labour, 600_000_000),
        party(PartyName::Conservatives, 250_000_000),
        party(PartyName::LiberalDemocrats, 80_000_000),
        party(PartyName::Green, 40_000_000),
        party(PartyName::Reform, 20_000_000),
        party(PartyName::Other, 10_000_000),
    ];
    assert_eq!(
        make_constituency_stats(&parties),
        ConstituencyStats {
            labour_probability: Some(600_000_000),
            conservative_probability: Some(250_000_000),
            lib_dem_probability: Some(80_000_000),
            green_probability: Some(40_000_000),
            reform_probability: Some(20_000_000),
            other_probability: Some(10_000_000),
            favourite_lead: Some(350_000_000),
            third_place_probability: Some(80_000_000),
        }
    );
}

#[test]
fn the_parties_are_ranked_before_the_lead_is_taken() {
    let parties = vec![
        party(PartyName::SNP, 100),
        party(PartyName::Labour, 700),
        party(PartyName::Unparsed("Local".to_string()), 50),
        party(PartyName::Conservatives, 150),
    ];
    let stats = make_constituency_stats(&parties);
    assert_eq!(stats.favourite_lead, Some(550));
    assert_eq!(stats.third_place_probability, Some(100));
    assert_eq!(stats.labour_probability, Some(700));
    assert_eq!(stats.conservative_probability, Some(150));
    assert_eq!(stats.lib_dem_probability, None);
    assert_eq!(stats.green_probability, None);
    assert_eq!(stats.reform_probability, None);
    assert_eq!(stats.other_probability, None);
}

#[test]
fn figures_are_absent_where_parties_are_missing() {
    let none: Vec<Party> = Vec::new();
    assert_eq!(
        make_constituency_stats(&none),
        ConstituencyStats {
            labour_probability: None,
            conservative_probability: None,
            lib_dem_probability: None,
            green_probability: None,
            reform_probability: None,
            other_probability: None,
            favourite_lead: None,
            third_place_probability: None,
        }
    );
    let one = vec![party(PartyName::Green, 1_000_000_000)];
    let stats = make_constituency_stats(&one);
    assert_eq!(stats.green_probability, Some(1_000_000_000));
    assert_eq!(stats.favourite_lead, None);
    assert_eq!(stats.third_place_probability, None);
    let two = vec![party(PartyName::Green, 400), party(PartyName::Other, 600)];
    let stats = make_constituency_stats(&two);
    assert_eq!(stats.favourite_lead, Some(200));
    assert_eq!(stats.third_place_probability, None);
}

#[test]
fn the_lead_of_equal_favourites_is_zero() {
    let parties = vec![party(PartyName::Labour, 500), party(PartyName::Conservatives, 500)];
    assert_eq!(make_constituency_stats(&parties).favourite_lead, Some(0));
}

#[test]
fn the_lead_is_never_negative() {
    let weights: Vec<u64> = vec![0, 1, 5, 999, u64::MAX];
    for a in weights.iter() {
        for b in weights.iter() {
            for c in weights.iter() {
                let parties = vec![
                    party(PartyName::Labour, *a),
                    party(PartyName::Conservatives, *b),
                    party(PartyName::Green, *c),
                ];
                let stats = make_constituency_stats(&parties);
                let mut sorted = vec![*a, *b, *c];
                sorted.sort();
                assert_eq!(stats.favourite_lead, Some(sorted[2] - sorted[1]));
                assert_eq!(stats.third_place_probability, Some(sorted[0]));
            }
        }
    }
}

#[test]
fn the_first_entry_for_a_party_gives_its_probability() {
    let parties = vec![
        party(PartyName::Independent, 10),
        party(PartyName::Labour, 20),
        party(PartyName::Independent, 30),
    ];
    assert_eq!(find_probability(&parties, &PartyName::Independent), Some(10));
    assert_eq!(find_probability(&parties, &PartyName::Labour), Some(20));
    assert_eq!(find_probability(&parties, &PartyName::Green), None);
    assert_eq!(find_probability(&parties, &PartyName::Unparsed("Labour".to_string())), None);
}

#[test]
fn parties_rank_by_probability_and_equal_ones_as_listed() {
    let parties = vec![
        party(PartyName::Labour, 30),
        party(PartyName::Conservatives, 50),
        party(PartyName::Green, 30),
        party(PartyName::Other, 0),
        party(PartyName::SNP, 50),
        party(PartyName::Reform, 0),
    ];
    assert_eq!(rank(&parties), vec![1, 4, 0, 2, 3, 5]);
    let none: Vec<Party> = Vec::new();
    assert_eq!(rank(&none), Vec::<usize>::new());
}
