//! The parties that stand in the election, and their order.
use crate::text::{
    chars_of, chars_precede, lemma_text_precedes_asymmetric, lemma_text_precedes_irreflexive,
    lemma_text_precedes_total, lemma_text_precedes_transitive, same_chars, text_precedes, trim,
    trimmed,
};
use vstd::prelude::*;
use vstd::std_specs::cmp::PartialEqSpecImpl;

verus! {

/// A party: one of the known parties, or a label that matched none of them,
/// kept word for word.
#[derive(Debug, Eq, PartialOrd, Ord, Hash)]
pub enum PartyName {
    Conservatives,
    Labour,
    LiberalDemocrats,
    SNP,
    Green,
    PlaidCymru,
    DUP,
    SinnFein,
    SDLP,
    Alliance,
    Independent,
    WorkersPartyOfBritain,
    Reform,
    Other,
    Unparsed(String),
}

/// The number of known parties; it is also the ordinal of every unrecognised
/// label.
pub const KNOWN_PARTIES: u8 = 14;

/// What a party is, mathematically: its place among the known parties and,
/// for an unrecognised label, the label.
pub struct PartyId {
    /// 0 for the first known party up to 13 for the last; 14 for every
    /// unrecognised label.
    pub ordinal: int,
    /// The unrecognised label; empty for a known party.
    pub label: Seq<char>,
}

/// The identity of the known party with the given ordinal.
pub open spec fn known_party(ordinal: int) -> PartyId {
    PartyId { ordinal, label: Seq::empty() }
}

/// The identity of the party that an unrecognised label stands for.
pub open spec fn unparsed_party(label: Seq<char>) -> PartyId {
    PartyId { ordinal: KNOWN_PARTIES as int, label }
}

/// The order of parties: known parties in the order of their ordinals, then
/// the unrecognised labels in dictionary order.
pub open spec fn party_precedes(a: PartyId, b: PartyId) -> bool {
    a.ordinal < b.ordinal || (a.ordinal == b.ordinal && text_precedes(a.label, b.label))
}

/// No party comes before itself.
pub proof fn lemma_party_precedes_irreflexive(a: PartyId)
    ensures
        !party_precedes(a, a),
{
    lemma_text_precedes_irreflexive(a.label);
}

/// Of two parties at most one comes before the other.
pub proof fn lemma_party_precedes_asymmetric(a: PartyId, b: PartyId)
    requires
        party_precedes(a, b),
    ensures
        !party_precedes(b, a),
{
    if a.ordinal == b.ordinal {
        lemma_text_precedes_asymmetric(a.label, b.label);
    }
}

/// The order of parties is transitive.
pub proof fn lemma_party_precedes_transitive(a: PartyId, b: PartyId, c: PartyId)
    requires
        party_precedes(a, b),
        party_precedes(b, c),
    ensures
        party_precedes(a, c),
{
    if a.ordinal == b.ordinal && b.ordinal == c.ordinal {
        lemma_text_precedes_transitive(a.label, b.label, c.label);
    }
}

/// Two different parties are always ordered, one way or the other.
pub proof fn lemma_party_precedes_total(a: PartyId, b: PartyId)
    requires
        a != b,
    ensures
        party_precedes(a, b) || party_precedes(b, a),
{
    if a.ordinal == b.ordinal {
        lemma_text_precedes_total(a.label, b.label);
    }
}

impl View for PartyName {
    type V = PartyId;

    open spec fn view(&self) -> PartyId {
        match self {
            PartyName::Conservatives => known_party(0),
            PartyName::Labour => known_party(1),
            PartyName::LiberalDemocrats => known_party(2),
            PartyName::SNP => known_party(3),
            PartyName::Green => known_party(4),
            PartyName::PlaidCymru => known_party(5),
            PartyName::DUP => known_party(6),
            PartyName::SinnFein => known_party(7),
            PartyName::SDLP => known_party(8),
            PartyName::Alliance => known_party(9),
            PartyName::Independent => known_party(10),
            PartyName::WorkersPartyOfBritain => known_party(11),
            PartyName::Reform => known_party(12),
            PartyName::Other => known_party(13),
            PartyName::Unparsed(label) => unparsed_party(label@),
        }
    }
}

impl Clone for PartyName {
    fn clone(&self) -> (copy: Self)
        ensures
            copy == *self,
    {
        match self {
            PartyName::Conservatives => PartyName::Conservatives,
            PartyName::Labour => PartyName::Labour,
            PartyName::LiberalDemocrats => PartyName::LiberalDemocrats,
            PartyName::SNP => PartyName::SNP,
            PartyName::Green => PartyName::Green,
            PartyName::PlaidCymru => PartyName::PlaidCymru,
            PartyName::DUP => PartyName::DUP,
            PartyName::SinnFein => PartyName::SinnFein,
            PartyName::SDLP => PartyName::SDLP,
            PartyName::Alliance => PartyName::Alliance,
            PartyName::Independent => PartyName::Independent,
            PartyName::WorkersPartyOfBritain => PartyName::WorkersPartyOfBritain,
            PartyName::Reform => PartyName::Reform,
            PartyName::Other => PartyName::Other,
            PartyName::Unparsed(label) => PartyName::Unparsed(label.clone()),
        }
    }
}

impl PartialEq for PartyName {
    fn eq(&self, other: &PartyName) -> (same: bool) {
        match (self, other) {
            (PartyName::Unparsed(a), PartyName::Unparsed(b)) => *a == *b,
            (PartyName::Unparsed(_), _) => false,
            (_, PartyName::Unparsed(_)) => false,
            _ => self.ordinal() == other.ordinal(),
        }
    }
}

impl PartialEqSpecImpl for PartyName {
    open spec fn obeys_eq_spec() -> bool {
        true
    }

    open spec fn eq_spec(&self, other: &PartyName) -> bool {
        self@ == other@
    }
}

impl PartyName {
    /// The party's place in the order of parties: the known parties count
    /// from 0, and every unrecognised label has the ordinal after the last of
    /// them.
    pub fn ordinal(&self) -> (ordinal: u8)
        ensures
            ordinal == self@.ordinal,
            ordinal <= KNOWN_PARTIES,
    {
        match self {
            PartyName::Conservatives => 0,
            PartyName::Labour => 1,
            PartyName::LiberalDemocrats => 2,
            PartyName::SNP => 3,
            PartyName::Green => 4,
            PartyName::PlaidCymru => 5,
            PartyName::DUP => 6,
            PartyName::SinnFein => 7,
            PartyName::SDLP => 8,
            PartyName::Alliance => 9,
            PartyName::Independent => 10,
            PartyName::WorkersPartyOfBritain => 11,
            PartyName::Reform => 12,
            PartyName::Other => 13,
            PartyName::Unparsed(_) => KNOWN_PARTIES,
        }
    }

    /// Whether this party comes before `other` in the order of parties.
    pub fn precedes(&self, other: &PartyName) -> (before: bool)
        ensures
            before == party_precedes(self@, other@),
    {
        match (self, other) {
            (PartyName::Unparsed(a), PartyName::Unparsed(b)) => {
                let a_chars = chars_of(a.as_str());
                let b_chars = chars_of(b.as_str());
                chars_precede(&a_chars, &b_chars)
            },
            _ => {
                proof {
                    lemma_text_precedes_irreflexive(Seq::<char>::empty());
                }
                self.ordinal() < other.ordinal()
            },
        }
    }

    /// The name under which the party is shown.
    pub open spec fn full_name(&self) -> Seq<char> {
        match self {
            PartyName::Conservatives => "Conservatives"@,
            PartyName::Labour => "Labour"@,
            PartyName::LiberalDemocrats => "Liberal Democrats"@,
            PartyName::SNP => "Scottish National Party"@,
            PartyName::Green => "Green"@,
            PartyName::PlaidCymru => "Plaid Cymru"@,
            PartyName::DUP => "Democratic Unionist Party"@,
            PartyName::SinnFein => "Sinn F\u{e9}in"@,
            PartyName::SDLP => "Social Democratic and Labour Party"@,
            PartyName::Alliance => "Alliance"@,
            PartyName::Independent => "Independent"@,
            PartyName::WorkersPartyOfBritain => "Workers Party of Britain"@,
            PartyName::Reform => "Reform"@,
            PartyName::Other => "Other"@,
            PartyName::Unparsed(label) => label@,
        }
    }

    /// The party's emblem, one or two characters of picture writing; empty
    /// for a party that has none.
    pub open spec fn emblem(&self) -> Seq<char> {
        match self {
            // a deciduous tree
            PartyName::Conservatives => "\u{1f333}"@,
            // a rose
            PartyName::Labour => "\u{1f339}"@,
            // a dove
            PartyName::LiberalDemocrats => "\u{1f54a}\u{fe0f}"@,
            // a reminder ribbon
            PartyName::SNP => "\u{1f397}\u{fe0f}"@,
            // a seedling
            PartyName::Green => "\u{1f331}"@,
            // a blossom
            PartyName::PlaidCymru => "\u{1f33c}"@,
            // a lion
            PartyName::DUP => "\u{1f981}"@,
            // the flag of Ireland
            PartyName::SinnFein => "\u{1f1ee}\u{1f1ea}"@,
            // a gear
            PartyName::WorkersPartyOfBritain => "\u{2699}\u{fe0f}"@,
            _ => ""@,
        }
    }

    /// The name under which the party is shown: the full name of a known
    /// party, and an unrecognised label as it is.
    pub fn to_string(&self) -> (name: String)
        ensures
            name@ == self.full_name(),
    {
        match self {
            PartyName::Conservatives => "Conservatives".to_string(),
            PartyName::Labour => "Labour".to_string(),
            PartyName::LiberalDemocrats => "Liberal Democrats".to_string(),
            PartyName::SNP => "Scottish National Party".to_string(),
            PartyName::Green => "Green".to_string(),
            PartyName::PlaidCymru => "Plaid Cymru".to_string(),
            PartyName::DUP => "Democratic Unionist Party".to_string(),
            PartyName::SinnFein => "Sinn F\u{e9}in".to_string(),
            PartyName::SDLP => "Social Democratic and Labour Party".to_string(),
            PartyName::Alliance => "Alliance".to_string(),
            PartyName::Independent => "Independent".to_string(),
            PartyName::WorkersPartyOfBritain => "Workers Party of Britain".to_string(),
            PartyName::Reform => "Reform".to_string(),
            PartyName::Other => "Other".to_string(),
            PartyName::Unparsed(label) => label.clone(),
        }
    }

    /// The party's emblem; the empty string for a party that has none.
    pub fn to_emoji(&self) -> (emoji: String)
        ensures
            emoji@ == self.emblem(),
    {
        match self {
            PartyName::Conservatives => "\u{1f333}".to_string(),
            PartyName::Labour => "\u{1f339}".to_string(),
            PartyName::LiberalDemocrats => "\u{1f54a}\u{fe0f}".to_string(),
            PartyName::SNP => "\u{1f397}\u{fe0f}".to_string(),
            PartyName::Green => "\u{1f331}".to_string(),
            PartyName::PlaidCymru => "\u{1f33c}".to_string(),
            PartyName::DUP => "\u{1f981}".to_string(),
            PartyName::SinnFein => "\u{1f1ee}\u{1f1ea}".to_string(),
            PartyName::SDLP => "".to_string(),
            PartyName::Alliance => "".to_string(),
            PartyName::Independent => "".to_string(),
            PartyName::WorkersPartyOfBritain => "\u{2699}\u{fe0f}".to_string(),
            PartyName::Reform => "".to_string(),
            PartyName::Other => "".to_string(),
            PartyName::Unparsed(_) => "".to_string(),
        }
    }
}

/// The party that a label names, the label taken as it stands: a known party
/// where the label is one of that party's names, else the label itself.
pub open spec fn party_of_label(label: Seq<char>) -> PartyId {
    if label == "Conservative"@ || label == "Conservatives"@ {
        PartyName::Conservatives@
    } else if label == "Labour"@ {
        PartyName::Labour@
    } else if label == "Liberal Democrat"@ || label == "Lib Dem"@ || label
        == "Liberal Democrats"@ {
        PartyName::LiberalDemocrats@
    } else if label == "Scottish National Party"@ {
        PartyName::SNP@
    } else if label == "Green"@ {
        PartyName::Green@
    } else if label == "Plaid Cymru"@ {
        PartyName::PlaidCymru@
    } else if label == "Democratic Unionist Party"@ {
        PartyName::DUP@
    } else if label == "Sinn F\u{e9}in"@ {
        PartyName::SinnFein@
    } else if label == "Social Democratic and Labour Party"@ {
        PartyName::SDLP@
    } else if label == "Alliance"@ {
        PartyName::Alliance@
    } else if label == "Independent: Jeremy Corbyn"@ || label == "Independent: Sir Lindsay Hoyle"@
        || label == "Independent: Andrew Bridgen"@ {
        PartyName::Independent@
    } else if label == "Workers Party of Britain"@ {
        PartyName::WorkersPartyOfBritain@
    } else if label == "Other"@ {
        PartyName::Other@
    } else {
        unparsed_party(label)
    }
}

/// Whether the characters spell out `word`.
fn spells(chars: &Vec<char>, word: &str) -> (same: bool)
    ensures
        same == (chars@ == word@),
{
    let word_chars = chars_of(word);
    same_chars(chars, &word_chars)
}

/// The party that a label names, the label taken as it stands, white space
/// and all. A label that is no known party's name gives the fallback party
/// that carries the label.
pub fn party_from_label(label: &str) -> (party: PartyName)
    ensures
        party@ == party_of_label(label@),
{
    let chars = chars_of(label);
    if spells(&chars, "Conservative") || spells(&chars, "Conservatives") {
        PartyName::Conservatives
    } else if spells(&chars, "Labour") {
        PartyName::Labour
    } else if spells(&chars, "Liberal Democrat") || spells(&chars, "Lib Dem") || spells(
        &chars,
        "Liberal Democrats",
    ) {
        PartyName::LiberalDemocrats
    } else if spells(&chars, "Scottish National Party") {
        PartyName::SNP
    } else if spells(&chars, "Green") {
        PartyName::Green
    } else if spells(&chars, "Plaid Cymru") {
        PartyName::PlaidCymru
    } else if spells(&chars, "Democratic Unionist Party") {
        PartyName::DUP
    } else if spells(&chars, "Sinn F\u{e9}in") {
        PartyName::SinnFein
    } else if spells(&chars, "Social Democratic and Labour Party") {
        PartyName::SDLP
    } else if spells(&chars, "Alliance") {
        PartyName::Alliance
    } else if spells(&chars, "Independent: Jeremy Corbyn") || spells(
        &chars,
        "Independent: Sir Lindsay Hoyle",
    ) || spells(&chars, "Independent: Andrew Bridgen") {
        PartyName::Independent
    } else if spells(&chars, "Workers Party of Britain") {
        PartyName::WorkersPartyOfBritain
    } else if spells(&chars, "Other") {
        PartyName::Other
    } else {
        PartyName::Unparsed(label.to_string())
    }
}

/// The party that a label from the market names. Whether the label is a
/// known party's name is decided without the white space at its ends; a
/// label that is no known party's name gives the fallback party, which
/// carries the label as it was given, white space and all.
pub open spec fn party_of_market_label(label: Seq<char>) -> PartyId {
    let known = party_of_label(trimmed(label));
    if known.ordinal < KNOWN_PARTIES {
        known
    } else {
        unparsed_party(label)
    }
}

/// The party that a label from the market names. White space around the
/// name of a known party does not count. Any other label gives the fallback
/// party that carries it word for word, so that [`PartyName::to_string`]
/// gives the label back as it came.
pub fn parse_party_name(party_name: &str) -> (party: PartyName)
    ensures
        party@ == party_of_market_label(party_name@),
        party is Unparsed <==> party_of_label(trimmed(party_name@)).ordinal == KNOWN_PARTIES,
        party is Unparsed ==> party.full_name() == party_name@,
{
    match party_from_label(trim(party_name)) {
        PartyName::Unparsed(_) => PartyName::Unparsed(party_name.to_string()),
        known => known,
    }
}

} // verus!
