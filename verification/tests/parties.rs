use election_2024::{parse_party_name, party_from_label, PartyName};

fn all_known() -> Vec<PartyName> {
    vec![
        PartyName::Conservatives,
        PartyName::Labour,
        PartyName::LiberalDemocrats,
        PartyName::SNP,
        PartyName::Green,
        PartyName::PlaidCymru,
        PartyName::DUP,
        PartyName::SinnFein,
        PartyName::SDLP,
        PartyName::Alliance,
        PartyName::Independent,
        PartyName::WorkersPartyOfBritain,
        PartyName::Reform,
        PartyName::Other,
    ]
}

#[test]
fn known_parties_have_their_full_names() {
    let expected = vec![
        "Conservatives",
        "Labour",
        "Liberal Democrats",
        "Scottish National Party",
        "Green",
        "Plaid Cymru",
        "Democratic Unionist Party",
        "Sinn F\u{e9}in",
        "Social Democratic and Labour Party",
        "Alliance",
        "Independent",
        "Workers Party of Britain",
        "Reform",
        "Other",
    ];
    let names: Vec<String> = all_known().iter().map(|party| party.to_string()).collect();
    assert_eq!(names, expected);
}

#[test]
fn unparsed_party_is_named_by_its_label() {
    let party = PartyName::Unparsed("Monster Raving Loony".to_string());
    assert_eq!(party.to_string(), "Monster Raving Loony");
    assert_eq!(party.to_emoji(), "");
}

#[test]
fn parties_have_their_emblems() {
    let expected = vec![
        "\u{1f333}",
        "\u{1f339}",
        "\u{1f54a}\u{fe0f}",
        "\u{1f397}\u{fe0f}",
        "\u{1f331}",
        "\u{1f33c}",
        "\u{1f981}",
        "\u{1f1ee}\u{1f1ea}",
        "",
        "",
        "",
        "\u{2699}\u{fe0f}",
        "",
        "",
    ];
    let emblems: Vec<String> = all_known().iter().map(|party| party.to_emoji()).collect();
    assert_eq!(emblems, expected);
}

#[test]
fn ordinals_count_the_known_parties() {
    let ordinals: Vec<u8> = all_known().iter().map(|party| party.ordinal()).collect();
    assert_eq!(ordinals, vec![0, 1, 2, 3, 4, 5, 6, 7, 8, 9, 10, 11, 12, 13]);
    assert_eq!(PartyName::Unparsed("x".to_string()).ordinal(), 14);
}

#[test]
fn labels_of_known_parties_are_recognised() {
    assert_eq!(parse_party_name("Conservative"), PartyName::Conservatives);
    assert_eq!(parse_party_name("Conservatives"), PartyName::Conservatives);
    assert_eq!(parse_party_name("Liberal Democrat"), PartyName::LiberalDemocrats);
    assert_eq!(parse_party_name("Lib Dem"), PartyName::LiberalDemocrats);
    assert_eq!(parse_party_name("Liberal Democrats"), PartyName::LiberalDemocrats);
    assert_eq!(parse_party_name("Labour"), PartyName::Labour);
    assert_eq!(parse_party_name("Scottish National Party"), PartyName::SNP);
    assert_eq!(parse_party_name("Sinn F\u{e9}in"), PartyName::SinnFein);
    assert_eq!(parse_party_name("Democratic Unionist Party"), PartyName::DUP);
    assert_eq!(parse_party_name("Plaid Cymru"), PartyName::PlaidCymru);
    assert_eq!(parse_party_name("Alliance"), PartyName::Alliance);
    assert_eq!(parse_party_name("Social Democratic and Labour Party"), PartyName::SDLP);
    assert_eq!(parse_party_name("Green"), PartyName::Green);
    assert_eq!(parse_party_name("Independent: Jeremy Corbyn"), PartyName::Independent);
    assert_eq!(parse_party_name("Independent: Sir Lindsay Hoyle"), PartyName::Independent);
    assert_eq!(parse_party_name("Independent: Andrew Bridgen"), PartyName::Independent);
    assert_eq!(parse_party_name("Workers Party of Britain"), PartyName::WorkersPartyOfBritain);
    assert_eq!(parse_party_name("Other"), PartyName::Other);
}

#[test]
fn white_space_around_a_known_name_does_not_count() {
    assert_eq!(parse_party_name("  Labour \n"), PartyName::Labour);
    assert_eq!(parse_party_name("\tLib Dem"), PartyName::LiberalDemocrats);
    assert_eq!(parse_party_name("\u{a0}Green\u{2003}"), PartyName::Green);
    assert_eq!(parse_party_name("Other\r\n"), PartyName::Other);
}

#[test]
fn unknown_labels_are_kept_word_for_word() {
    assert_eq!(parse_party_name("Reform"), PartyName::Unparsed("Reform".to_string()));
    assert_eq!(parse_party_name("labour"), PartyName::Unparsed("labour".to_string()));
    assert_eq!(parse_party_name(""), PartyName::Unparsed("".to_string()));
    assert_eq!(
        parse_party_name("Monster Raving Loony"),
        PartyName::Unparsed("Monster Raving Loony".to_string())
    );
    assert_eq!(
        parse_party_name("Independent: Someone Else"),
        PartyName::Unparsed("Independent: Someone Else".to_string())
    );
    assert_eq!(
        parse_party_name("\u{1f333} Tree Party \u{e9}"),
        PartyName::Unparsed("\u{1f333} Tree Party \u{e9}".to_string())
    );
}

#[test]
fn unknown_labels_keep_the_white_space_at_their_ends() {
    assert_eq!(
        parse_party_name("  Monster  Raving "),
        PartyName::Unparsed("  Monster  Raving ".to_string())
    );
    assert_eq!(parse_party_name("   "), PartyName::Unparsed("   ".to_string()));
    assert_eq!(parse_party_name("\tlabour\n"), PartyName::Unparsed("\tlabour\n".to_string()));
    assert_eq!(parse_party_name(" Lab our "), PartyName::Unparsed(" Lab our ".to_string()));
}

#[test]
fn an_unknown_label_comes_back_as_it_went_in() {
    let labels = vec![
        "",
        " ",
        "Reform",
        "  Reform UK\t",
        "Independent",
        "\u{3000}Monster Raving Loony\u{a0}",
        "\u{1f333}",
        "Sinn Fein",
    ];
    for label in labels {
        let party = parse_party_name(label);
        assert!(matches!(party, PartyName::Unparsed(_)));
        assert_eq!(party.to_string(), label);
    }
}

#[test]
fn a_label_taken_as_it_stands_keeps_its_white_space() {
    assert_eq!(party_from_label("Labour"), PartyName::Labour);
    assert_eq!(party_from_label(" Labour"), PartyName::Unparsed(" Labour".to_string()));
}

#[test]
fn known_parties_precede_in_the_order_of_their_ordinals() {
    let parties = all_known();
    for (i, a) in parties.iter().enumerate() {
        for (j, b) in parties.iter().enumerate() {
            assert_eq!(a.precedes(b), i < j);
        }
    }
}

#[test]
fn unparsed_parties_come_last_in_dictionary_order() {
    let apple = PartyName::Unparsed("Apple".to_string());
    let apples = PartyName::Unparsed("Apples".to_string());
    let banana = PartyName::Unparsed("Banana".to_string());
    let accent = PartyName::Unparsed("\u{e9}clair".to_string());
    assert!(PartyName::Other.precedes(&apple));
    assert!(!apple.precedes(&PartyName::Other));
    assert!(apple.precedes(&apples));
    assert!(!apples.precedes(&apple));
    assert!(apples.precedes(&banana));
    assert!(banana.precedes(&accent));
    assert!(!apple.precedes(&apple));
}

#[test]
fn precedes_agrees_with_the_derived_order() {
    let mut parties = all_known();
    parties.push(PartyName::Unparsed("".to_string()));
    parties.push(PartyName::Unparsed("Zebra".to_string()));
    parties.push(PartyName::Unparsed("apple".to_string()));
    parties.push(PartyName::Unparsed("\u{1f333}".to_string()));
    parties.push(PartyName::Unparsed("\u{e9}a".to_string()));
    parties.push(PartyName::Unparsed("\u{ffff}".to_string()));
    for a in parties.iter() {
        for b in parties.iter() {
            assert_eq!(a.precedes(b), a < b);
            assert_eq!(a == b, !a.precedes(b) && !b.precedes(a));
        }
    }
}

#[test]
fn a_clone_is_the_same_party() {
    let party = PartyName::Unparsed("Some Party".to_string());
    assert_eq!(party.clone(), party);
    assert_eq!(PartyName::SNP.clone(), PartyName::SNP);
    assert_ne!(PartyName::SNP, PartyName::Green);
    assert_ne!(party, PartyName::Unparsed("Some party".to_string()));
}
