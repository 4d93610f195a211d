//! Standings: parties with a number each, ranked by that number.
//!
//! The greater number goes first. Of two parties with the same number, the
//! one that comes first in the order of parties goes first. Nothing else
//! counts, so the same standings always come out in the same order.
use crate::party::{
    lemma_party_precedes_asymmetric, lemma_party_precedes_irreflexive, lemma_party_precedes_total,
    lemma_party_precedes_transitive, party_precedes, PartyId, PartyName,
};
use crate::ranking::{
    has_place, is_ranking, lemma_ranking_exists, lemma_ranking_has_no_repeats, outranks, rank,
    ranking_of, Contest,
};
use crate::tally::{
    all_positive, count_in, has_entry, lemma_count_absent, lemma_count_present, one_entry_each,
};
use vstd::prelude::*;

verus! {

/// Whether the standing `a` goes before the standing `b`: it has the greater
/// number, or the same number and the party that comes first.
pub open spec fn stands_before(a: (PartyId, int), b: (PartyId, int)) -> bool {
    a.1 > b.1 || (a.1 == b.1 && party_precedes(a.0, b.0))
}

/// Whether each standing of the list goes before all that follow it.
pub open spec fn in_standing_order(standings: Seq<(PartyId, int)>) -> bool {
    forall|i: int, j: int|
        0 <= i < j < standings.len() ==> stands_before(
            #[trigger] standings[i],
            #[trigger] standings[j],
        )
}

/// A standing as mathematics sees it.
pub open spec fn standing_view(entry: (PartyName, usize)) -> (PartyId, int) {
    (entry.0@, entry.1 as int)
}

/// A list of standings as mathematics sees it.
pub open spec fn standings_view(entries: Seq<(PartyName, usize)>) -> Seq<(PartyId, int)> {
    entries.map_values(|entry: (PartyName, usize)| standing_view(entry))
}

/// Standings compete by their numbers, and among equal numbers by the order
/// of parties.
impl Contest for Vec<(PartyName, usize)> {
    open spec fn entrants(&self) -> usize {
        self.len()
    }

    open spec fn beats(&self, a: int, b: int) -> bool {
        stands_before(standing_view(self@[a]), standing_view(self@[b]))
    }

    fn size(&self) -> (n: usize) {
        self.len()
    }

    fn decide(&self, a: usize, b: usize) -> (better: bool) {
        self[a].1 > self[b].1 || (self[a].1 == self[b].1 && self[a].0.precedes(&self[b].0))
    }

    proof fn beats_is_asymmetric(&self, a: int, b: int) {
        if self@[a].1 == self@[b].1 {
            lemma_party_precedes_asymmetric(self@[a].0@, self@[b].0@);
        }
    }

    proof fn beats_is_negatively_transitive(&self, a: int, b: int, c: int) {
        let x = standing_view(self@[a]);
        let y = standing_view(self@[b]);
        let z = standing_view(self@[c]);
        if x.1 == y.1 && z.1 == x.1 {
            if z.0 != x.0 {
                lemma_party_precedes_total(x.0, z.0);
                if party_precedes(z.0, x.0) {
                    lemma_party_precedes_transitive(z.0, x.0, y.0);
                }
            }
        }
    }
}

/// The standings in their order, as mathematics sees them.
pub open spec fn standings_in_order(entries: &Vec<(PartyName, usize)>) -> Seq<(PartyId, int)> {
    Seq::new(
        entries@.len(),
        |place: int| standing_view(entries@[ranking_of(entries)[place] as int]),
    )
}

/// Where no party stands twice, each standing in the order goes before all
/// that follow it, and the order holds the same parties with the same
/// numbers as the list.
pub proof fn lemma_standings_in_order(entries: &Vec<(PartyName, usize)>)
    requires
        one_entry_each(standings_view(entries@)),
    ensures
        in_standing_order(standings_in_order(entries)),
        one_entry_each(standings_in_order(entries)),
        all_positive(standings_view(entries@)) ==> all_positive(standings_in_order(entries)),
        forall|party: PartyId|
            count_in(standings_in_order(entries), party) == count_in(
                standings_view(entries@),
                party,
            ),
{
    lemma_ranking_exists(entries);
    let order = ranking_of(entries);
    let listed = standings_view(entries@);
    let ranked = standings_in_order(entries);
    assert forall|i: int, j: int| 0 <= i < j < ranked.len() implies stands_before(
        #[trigger] ranked[i],
        #[trigger] ranked[j],
    ) && ranked[i].0 != ranked[j].0 by {
        lemma_ranking_has_no_repeats(entries, order, i, j);
        let a = order[i] as int;
        let b = order[j] as int;
        assert(outranks(entries, a, b));
        assert(listed[a] == ranked[i] && listed[b] == ranked[j]);
        if a < b {
            assert(listed[a].0 != listed[b].0);
        } else {
            assert(listed[b].0 != listed[a].0);
        }
        if !entries.beats(a, b) {
            lemma_party_precedes_total(listed[a].0, listed[b].0);
        }
    }
    assert forall|party: PartyId| count_in(ranked, party) == count_in(listed, party) by {
        if has_entry(listed, party) {
            let at = choose|at: int| 0 <= at < listed.len() && (#[trigger] listed[at]).0 == party;
            assert(has_place(order, at));
            let place = choose|place: int| 0 <= place < order.len() && order[place] == at;
            assert(ranked[place] == listed[at]);
            lemma_count_present(listed, at);
            lemma_count_present(ranked, place);
        } else {
            assert(!has_entry(ranked, party)) by {
                if has_entry(ranked, party) {
                    let place = choose|place: int|
                        0 <= place < ranked.len() && (#[trigger] ranked[place]).0 == party;
                    assert(listed[order[place] as int].0 == party);
                }
            }
            lemma_count_absent(listed, party);
            lemma_count_absent(ranked, party);
        }
    }
    if all_positive(listed) {
        assert forall|place: int| 0 <= place < ranked.len() implies (#[trigger] ranked[place]).1
            >= 1 by {
            assert(listed[order[place] as int].1 >= 1);
        }
    }
}

/// Two lists in standing order that hold the same standings are the same
/// list, place for place.
pub proof fn lemma_same_standings_same_order(x: Seq<(PartyId, int)>, y: Seq<(PartyId, int)>)
    requires
        in_standing_order(x),
        in_standing_order(y),
        forall|i: int| 0 <= i < x.len() ==> y.contains(#[trigger] x[i]),
        forall|i: int| 0 <= i < y.len() ==> x.contains(#[trigger] y[i]),
    ensures
        x == y,
{
    if x.len() < y.len() {
        lemma_orders_agree_at(y, x, x.len() as int);
    }
    if y.len() < x.len() {
        lemma_orders_agree_at(x, y, y.len() as int);
    }
    assert forall|place: int| 0 <= place < x.len() implies x[place] == y[place] by {
        lemma_orders_agree_at(x, y, place);
    }
    assert(x =~= y);
}

/// Two lists in standing order agree at `place` where each holds every
/// standing of the other.
proof fn lemma_orders_agree_at(x: Seq<(PartyId, int)>, y: Seq<(PartyId, int)>, place: int)
    requires
        in_standing_order(x),
        in_standing_order(y),
        forall|i: int| 0 <= i < x.len() ==> y.contains(#[trigger] x[i]),
        forall|i: int| 0 <= i < y.len() ==> x.contains(#[trigger] y[i]),
        0 <= place < x.len(),
    ensures
        place < y.len(),
        x[place] == y[place],
    decreases place,
{
    assert forall|earlier: int| 0 <= earlier < place implies earlier < y.len() && x[earlier]
        == y[earlier] by {
        lemma_orders_agree_at(x, y, earlier);
    }
    let a = x[place];
    assert(y.contains(a));
    let a_in_y = choose|i: int| 0 <= i < y.len() && y[i] == a;
    if a_in_y < place {
        assert(x[a_in_y] == y[a_in_y]);
        assert(stands_before(x[a_in_y], x[place]));
        lemma_stands_before_is_strict(a, a);
    }
    let b = y[place];
    if a != b {
        assert(stands_before(y[place], y[a_in_y]));
        assert(x.contains(b));
        let b_in_x = choose|i: int| 0 <= i < x.len() && x[i] == b;
        if b_in_x < place {
            assert(x[b_in_x] == y[b_in_x]);
            assert(stands_before(y[b_in_x], y[place]));
            lemma_stands_before_is_strict(b, b);
        }
        assert(stands_before(x[place], x[b_in_x]));
        lemma_stands_before_is_strict(a, b);
    }
}

/// Of two standings at most one goes before the other, and none before
/// itself.
pub proof fn lemma_stands_before_is_strict(a: (PartyId, int), b: (PartyId, int))
    ensures
        stands_before(a, b) ==> !stands_before(b, a),
        !stands_before(a, a),
{
    if stands_before(a, b) && a.1 == b.1 {
        lemma_party_precedes_asymmetric(a.0, b.0);
    }
    lemma_party_precedes_irreflexive(a.0);
}

/// The order of standings is fixed by what stands in it: two lists in
/// standing order that give every party the same number are the same list,
/// place for place.
pub proof fn lemma_standing_order_is_unique(x: Seq<(PartyId, int)>, y: Seq<(PartyId, int)>)
    requires
        in_standing_order(x),
        in_standing_order(y),
        one_entry_each(x),
        one_entry_each(y),
        all_positive(x),
        all_positive(y),
        forall|party: PartyId| count_in(x, party) == count_in(y, party),
    ensures
        x == y,
{
    lemma_same_counts_same_entries(x, y);
    lemma_same_counts_same_entries(y, x);
    lemma_same_standings_same_order(x, y);
}

/// Where two lists give every party the same number, each entry of the one
/// stands in the other.
proof fn lemma_same_counts_same_entries(x: Seq<(PartyId, int)>, y: Seq<(PartyId, int)>)
    requires
        one_entry_each(x),
        one_entry_each(y),
        all_positive(x),
        forall|party: PartyId| count_in(x, party) == count_in(y, party),
    ensures
        forall|i: int| 0 <= i < x.len() ==> y.contains(#[trigger] x[i]),
{
    assert forall|i: int| 0 <= i < x.len() implies y.contains(#[trigger] x[i]) by {
        let party = x[i].0;
        lemma_count_present(x, i);
        assert(count_in(y, party) == x[i].1);
        if !has_entry(y, party) {
            lemma_count_absent(y, party);
        }
        let j = choose|j: int| 0 <= j < y.len() && (#[trigger] y[j]).0 == party;
        lemma_count_present(y, j);
        assert(y[j] == x[i]);
    }
}

/// The standings in their order: the greatest number first, and of two
/// parties with the same number the one that comes first in the order of
/// parties.
pub fn rank_standings(entries: &Vec<(PartyName, usize)>) -> (ranked: Vec<(PartyName, usize)>)
    ensures
        standings_view(ranked@) == standings_in_order(entries),
{
    let order = rank(entries);
    let mut ranked: Vec<(PartyName, usize)> = Vec::new();
    let mut place: usize = 0;
    while place < order.len()
        invariant
            place <= order.len(),
            is_ranking(entries, order@),
            order@ == ranking_of(entries),
            ranked@.len() == place,
            forall|earlier: int|
                0 <= earlier < place ==> standing_view(#[trigger] ranked@[earlier])
                    == standing_view(entries@[order@[earlier] as int]),
        decreases order.len() - place,
    {
        let entry = &entries[order[place]];
        ranked.push((entry.0.clone(), entry.1));
        place += 1;
    }
    assert(standings_view(ranked@) =~= standings_in_order(entries));
    ranked
}

} // verus!
