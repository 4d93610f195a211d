use election_2024::{rank_standings, PartyName, Tally};

#[test]
fn a_new_tally_counts_nothing() {
    let tally = Tally::new();
    assert_eq!(tally.get(&PartyName::Labour), 0);
    assert_eq!(tally.get(&PartyName::Unparsed("x".to_string())), 0);
    assert!(tally.entries().is_empty());
}

#[test]
fn each_credit_counts_one_for_its_party() {
    let mut tally = Tally::new();
    tally.add(&PartyName::Labour);
    tally.add(&PartyName::Green);
    tally.add(&PartyName::Labour);
    tally.add(&PartyName::Unparsed("Local".to_string()));
    tally.add(&PartyName::Labour);
    tally.add(&PartyName::Unparsed("Local".to_string()));
    assert_eq!(tally.get(&PartyName::Labour), 3);
    assert_eq!(tally.get(&PartyName::Green), 1);
    assert_eq!(tally.get(&PartyName::Unparsed("Local".to_string())), 2);
    assert_eq!(tally.get(&PartyName::Unparsed("local".to_string())), 0);
    assert_eq!(tally.get(&PartyName::Conservatives), 0);
    assert_eq!(
        tally.entries(),
        &vec![
            (PartyName::Labour, 3),
            (PartyName::Green, 1),
            (PartyName::Unparsed("Local".to_string()), 2),
        ]
    );
    let total: usize = tally.entries().iter().map(|entry| entry.1).sum();
    assert_eq!(total, 6);
}

#[test]
fn standings_go_by_number_and_then_by_party() {
    let entries = vec![
        (PartyName::Unparsed("Beta".to_string()), 4),
        (PartyName::Green, 4),
        (PartyName::Labour, 9),
        (PartyName::Unparsed("Alpha".to_string()), 4),
        (PartyName::Conservatives, 4),
        (PartyName::Other, 1),
    ];
    assert_eq!(
        rank_standings(&entries),
        vec![
            (PartyName::Labour, 9),
            (PartyName::Conservatives, 4),
            (PartyName::Green, 4),
            (PartyName::Unparsed("Alpha".to_string()), 4),
            (PartyName::Unparsed("Beta".to_string()), 4),
            (PartyName::Other, 1),
        ]
    );
    let none: Vec<(PartyName, usize)> = Vec::new();
    assert_eq!(rank_standings(&none), Vec::new());
}
